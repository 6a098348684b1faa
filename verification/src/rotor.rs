//! Rotor: blocks cut into erasure-coded chunks, the relays that carry them,
//! and the test whether a block can be put together again.

use vstd::prelude::*;
use crate::duplicate::{copy_list, Duplicate};
use crate::fraction::{scaled, Fraction};
use crate::sorted_map::{lemma_ascending_unique, lemma_deep_insert, ordered_keys};
use crate::sorted_set::SortedSet;
use crate::state::{copy_ids, stake_sum, total_of, AlpenglowState, StateView};
use crate::types::{Block, BlockId, NodeId, StakeAmount};

verus! {

/// The number of chunks that a block is cut into before redundancy is added.
pub const BASE_CHUNKS: usize = 10;

/// The length of the data that a chunk carries.
pub const CHUNK_DATA_LEN: usize = 64;

/// The multiplier that spreads chunk ids over the stake.
pub const CHUNK_SEED_FACTOR: u64 = 12345;

/// The reliability given to every relay, in millionths: 0.95.
pub const DEFAULT_RELIABILITY_MICROS: u64 = 950_000;

#[derive(Clone, Debug, PartialEq, Hash)]
pub struct BlockChunk {
    pub chunk_id: u32,
    pub block_id: BlockId,
    pub data: Vec<u8>,
    pub checksum: u64,
}

#[verifier::ext_equal]
pub struct BlockChunkView {
    pub chunk_id: u32,
    pub block_id: BlockId,
    pub data: Seq<u8>,
    pub checksum: u64,
}

impl DeepView for BlockChunk {
    type V = BlockChunkView;

    open spec fn deep_view(&self) -> BlockChunkView {
        BlockChunkView {
            chunk_id: self.chunk_id,
            block_id: self.block_id,
            data: self.data@,
            checksum: self.checksum,
        }
    }
}

#[derive(Clone, Debug, PartialEq)]
pub struct ErasureCodedBlock {
    pub block: Block,
    pub chunks: Vec<BlockChunk>,
    /// The share of redundant chunks: 0.5 adds half as many chunks again.
    pub redundancy_level: Fraction,
    /// The number of distinct chunks from which the block can be rebuilt.
    pub required_chunks: usize,
}

#[verifier::ext_equal]
pub struct ErasureCodedBlockView {
    pub block: Block,
    pub chunks: Seq<BlockChunkView>,
    pub redundancy_level: Fraction,
    pub required_chunks: usize,
}

impl DeepView for ErasureCodedBlock {
    type V = ErasureCodedBlockView;

    open spec fn deep_view(&self) -> ErasureCodedBlockView {
        ErasureCodedBlockView {
            block: self.block,
            chunks: self.chunks.deep_view(),
            redundancy_level: self.redundancy_level,
            required_chunks: self.required_chunks,
        }
    }
}

#[derive(Clone, Debug, PartialEq)]
pub struct RelayNode {
    pub node_id: NodeId,
    pub stake_weight: StakeAmount,
    pub reliability_score: Fraction,
    pub assigned_chunks: Vec<u32>,
}

#[verifier::ext_equal]
pub struct RelayNodeView {
    pub node_id: NodeId,
    pub stake_weight: StakeAmount,
    pub reliability_score: Fraction,
    pub assigned_chunks: Seq<u32>,
}

impl DeepView for RelayNode {
    type V = RelayNodeView;

    open spec fn deep_view(&self) -> RelayNodeView {
        RelayNodeView {
            node_id: self.node_id,
            stake_weight: self.stake_weight,
            reliability_score: self.reliability_score,
            assigned_chunks: self.assigned_chunks@,
        }
    }
}

/// The number of chunks of a block coded at `level`: the base chunks and
/// the floor of as many again times `level`.
pub open spec fn chunk_count(level: Fraction) -> int {
    BASE_CHUNKS + scaled(BASE_CHUNKS as int, level.micros as int)
}

/// Chunk `i` of block `block_id`: its data is `CHUNK_DATA_LEN` times the
/// low byte of `i`, its checksum `i * CHUNK_SEED_FACTOR + block_id`.
pub open spec fn coded_chunk(block_id: BlockId, i: int) -> BlockChunkView {
    BlockChunkView {
        chunk_id: i as u32,
        block_id,
        data: Seq::new(CHUNK_DATA_LEN as nat, |j: int| (i % 256) as u8),
        checksum: (i * CHUNK_SEED_FACTOR + block_id) as u64,
    }
}

/// `block`, coded at `level`.
pub open spec fn coded_block(block: Block, level: Fraction) -> ErasureCodedBlockView {
    ErasureCodedBlockView {
        block,
        chunks: Seq::new(chunk_count(level) as nat, |i: int| coded_chunk(block.id, i)),
        redundancy_level: level,
        required_chunks: BASE_CHUNKS,
    }
}

/// The point of the stake at which chunk `chunk_id` falls.
pub open spec fn chunk_target(chunk_id: u32, total: int) -> int {
    (chunk_id * CHUNK_SEED_FACTOR) % total
}

/// The first position among the first `n` of `keys` at which the running
/// sum of the stakes reaches `target`; `n` where it does not.
pub open spec fn relay_index(stakes: Map<NodeId, StakeAmount>, keys: Seq<NodeId>, target: int, n: int) -> int
    decreases n,
{
    if n <= 0 {
        0
    } else {
        let before = relay_index(stakes, keys, target, n - 1);
        if before < n - 1 {
            before
        } else if stake_sum(stakes, keys, n) >= target {
            n - 1
        } else {
            n
        }
    }
}

/// The node that relays chunk `chunk_id`: walking the nodes in ascending
/// order, the first at which the running sum of the stakes reaches the
/// chunk's point. There is none where there is no stake.
pub open spec fn relay_for(stakes: Map<NodeId, StakeAmount>, chunk_id: u32) -> Option<NodeId> {
    let keys = ordered_keys(stakes);
    let total = total_of(stakes);
    let index = relay_index(stakes, keys, chunk_target(chunk_id, total), keys.len() as int);
    if total > 0 && index < keys.len() {
        Some(keys[index])
    } else {
        None
    }
}

/// The ids of the nodes of `relays`, in their order.
pub open spec fn relay_ids(relays: Seq<RelayNodeView>) -> Seq<NodeId> {
    relays.map_values(|r: RelayNodeView| r.node_id)
}

/// `relays` with chunk `chunk_id` given to `node`: added to the chunks of
/// its entry, or in a new entry at the end.
pub open spec fn assign_chunk(
    relays: Seq<RelayNodeView>,
    node: NodeId,
    stake: StakeAmount,
    chunk_id: u32,
) -> Seq<RelayNodeView> {
    match relay_ids(relays).index_of_first(node) {
        Some(i) => relays.update(
            i,
            RelayNodeView { assigned_chunks: relays[i].assigned_chunks.push(chunk_id), ..relays[i] },
        ),
        None => relays.push(
            RelayNodeView {
                node_id: node,
                stake_weight: stake,
                reliability_score: Fraction { micros: DEFAULT_RELIABILITY_MICROS },
                assigned_chunks: seq![chunk_id],
            },
        ),
    }
}

/// The relays of the first `n` of `chunks`.
pub open spec fn relays_prefix(stakes: Map<NodeId, StakeAmount>, chunks: Seq<BlockChunkView>, n: int) -> Seq<
    RelayNodeView,
>
    decreases n,
{
    if n <= 0 {
        Seq::empty()
    } else {
        let before = relays_prefix(stakes, chunks, n - 1);
        match relay_for(stakes, chunks[n - 1].chunk_id) {
            Some(node) => assign_chunk(
                before,
                node,
                if stakes.contains_key(node) {
                    stakes[node]
                } else {
                    0
                },
                chunks[n - 1].chunk_id,
            ),
            None => before,
        }
    }
}

/// The nodes that hold the chunk `key`.
pub open spec fn holders(avail: Map<(BlockId, u32), Set<NodeId>>, key: (BlockId, u32)) -> Set<NodeId> {
    if avail.contains_key(key) {
        avail[key]
    } else {
        Set::empty()
    }
}

/// `avail` with `node` among the holders of the chunk `key`.
pub open spec fn mark(avail: Map<(BlockId, u32), Set<NodeId>>, key: (BlockId, u32), node: NodeId) -> Map<
    (BlockId, u32),
    Set<NodeId>,
> {
    avail.insert(key, holders(avail, key).insert(node))
}

/// `avail` with `node` among the holders of the first `n` of `chunk_ids` of block `block_id`.
pub open spec fn mark_chunks(
    avail: Map<(BlockId, u32), Set<NodeId>>,
    block_id: BlockId,
    chunk_ids: Seq<u32>,
    node: NodeId,
    n: int,
) -> Map<(BlockId, u32), Set<NodeId>>
    decreases n,
{
    if n <= 0 {
        avail
    } else {
        mark(mark_chunks(avail, block_id, chunk_ids, node, n - 1), (block_id, chunk_ids[n - 1]), node)
    }
}

/// `avail` with the first `n` of `targets` among the holders of the chunk `key`.
pub open spec fn mark_targets(
    avail: Map<(BlockId, u32), Set<NodeId>>,
    key: (BlockId, u32),
    targets: Seq<NodeId>,
    n: int,
) -> Map<(BlockId, u32), Set<NodeId>>
    decreases n,
{
    if n <= 0 {
        avail
    } else {
        mark(mark_targets(avail, key, targets, n - 1), key, targets[n - 1])
    }
}

/// The chunks of block `block_id` that some node holds.
pub open spec fn available_chunks(avail: Map<(BlockId, u32), Set<NodeId>>, block_id: BlockId) -> Set<u32> {
    Set::new(|c: u32| avail.contains_key((block_id, c)) && avail[(block_id, c)] != Set::<NodeId>::empty())
}

/// The chunks of block `block_id` that some node holds, among the first `n` of `keys`.
pub open spec fn found_chunks(
    avail: Map<(BlockId, u32), Set<NodeId>>,
    keys: Seq<(BlockId, u32)>,
    block_id: BlockId,
    n: int,
) -> Set<u32>
    decreases n,
{
    if n <= 0 {
        Set::empty()
    } else if keys[n - 1].0 == block_id && avail[keys[n - 1]] != Set::<NodeId>::empty() {
        found_chunks(avail, keys, block_id, n - 1).insert(keys[n - 1].1)
    } else {
        found_chunks(avail, keys, block_id, n - 1)
    }
}

/// `assignments` with the first `n` of `relays`, each under its node, later ones over earlier ones.
pub open spec fn assign_all(assignments: Map<NodeId, RelayNodeView>, relays: Seq<RelayNodeView>, n: int) -> Map<
    NodeId,
    RelayNodeView,
>
    decreases n,
{
    if n <= 0 {
        assignments
    } else {
        assign_all(assignments, relays, n - 1).insert(relays[n - 1].node_id, relays[n - 1])
    }
}

/// The ids of `chunks`, in their order.
pub open spec fn chunk_ids(chunks: Seq<BlockChunkView>) -> Seq<u32> {
    chunks.map_values(|c: BlockChunkView| c.chunk_id)
}

/// Once the running sum has reached the target, the position stays.
pub proof fn lemma_relay_index_stable(
    stakes: Map<NodeId, StakeAmount>,
    keys: Seq<NodeId>,
    target: int,
    m: int,
    n: int,
)
    requires
        0 <= m <= n,
        relay_index(stakes, keys, target, m) < m,
    ensures
        relay_index(stakes, keys, target, n) == relay_index(stakes, keys, target, m),
    decreases n - m,
{
    if m < n {
        lemma_relay_index_stable(stakes, keys, target, m, n - 1);
    }
}

/// What `found_chunks` finds lies under one of the keys it has looked at.
pub proof fn lemma_found_chunks(
    avail: Map<(BlockId, u32), Set<NodeId>>,
    keys: Seq<(BlockId, u32)>,
    block_id: BlockId,
    n: int,
)
    requires
        0 <= n <= keys.len(),
    ensures
        found_chunks(avail, keys, block_id, n).finite(),
        forall|c: u32| #[trigger]
            found_chunks(avail, keys, block_id, n).contains(c) <==> exists|j: int|
                0 <= j < n && #[trigger] keys[j] == (block_id, c) && avail[keys[j]] != Set::<NodeId>::empty(),
    decreases n,
{
    if n > 0 {
        lemma_found_chunks(avail, keys, block_id, n - 1);
        let prev = found_chunks(avail, keys, block_id, n - 1);
        let cur = found_chunks(avail, keys, block_id, n);
        assert forall|c: u32| #[trigger] cur.contains(c) <==> exists|j: int|
            0 <= j < n && #[trigger] keys[j] == (block_id, c) && avail[keys[j]] != Set::<NodeId>::empty() by {
            if cur.contains(c) {
                if prev.contains(c) {
                    let j = choose|j: int|
                        0 <= j < n - 1 && #[trigger] keys[j] == (block_id, c) && avail[keys[j]] != Set::<
                            NodeId,
                        >::empty();
                    assert(0 <= j < n && keys[j] == (block_id, c));
                } else {
                    assert(keys[n - 1] == (block_id, c));
                }
            }
            if exists|j: int|
                0 <= j < n && #[trigger] keys[j] == (block_id, c) && avail[keys[j]] != Set::<NodeId>::empty() {
                let j = choose|j: int|
                    0 <= j < n && #[trigger] keys[j] == (block_id, c) && avail[keys[j]] != Set::<NodeId>::empty();
                if j < n - 1 {
                    assert(prev.contains(c));
                }
            }
        }
    }
}

/// A list of `CHUNK_DATA_LEN` bytes, all `byte`.
fn filled(byte: u8) -> (data: Vec<u8>)
    ensures
        data@ == Seq::new(CHUNK_DATA_LEN as nat, |j: int| byte),
{
    let mut data: Vec<u8> = Vec::new();
    let mut j: usize = 0;
    while j < CHUNK_DATA_LEN
        invariant
            j <= CHUNK_DATA_LEN,
            data@ == Seq::new(j as nat, |k: int| byte),
        decreases CHUNK_DATA_LEN - j,
    {
        data.push(byte);
        j += 1;
        assert(data@ =~= Seq::new(j as nat, |k: int| byte));
    }
    data
}

/// The position of the relay of `node` in `relays`.
fn find_relay(relays: &Vec<RelayNode>, node: NodeId) -> (r: Option<usize>)
    ensures
        match r {
            Some(i) => relay_ids(relays.deep_view()).index_of_first(node) == Some(i as int) && i
                < relays@.len(),
            None => relay_ids(relays.deep_view()).index_of_first(node) is None,
        },
{
    let ghost ids = relay_ids(relays.deep_view());
    proof {
        ids.index_of_first_ensures(node);
    }
    let mut i: usize = 0;
    while i < relays.len()
        invariant
            i <= relays@.len(),
            ids == relay_ids(relays.deep_view()),
            ids.len() == relays@.len(),
            forall|j: int| 0 <= j < i ==> ids[j] != node,
            match ids.index_of_first(node) {
                Some(p) => 0 <= p < ids.len() && ids[p] == node && forall|j: int| 0 <= j < p ==> ids[j] != node,
                None => !ids.contains(node),
            },
        decreases relays@.len() - i,
    {
        assert(ids[i as int] == relays@[i as int].node_id);
        if relays[i].node_id == node {
            return Some(i);
        }
        i += 1;
    }
    None
}

impl AlpenglowState {
    /// Cuts `block` into chunks and adds redundancy.
    ///
    /// Chunk ids are `u32`, so the number of chunks must fit that type.
    pub fn create_erasure_coded_block(&self, block: Block, redundancy_level: Fraction) -> (coded:
        ErasureCodedBlock)
        requires
            chunk_count(redundancy_level) <= u32::MAX,
        ensures
            coded.deep_view() == coded_block(block, redundancy_level),
    {
        let redundant: u64 = redundancy_level.scale(BASE_CHUNKS as u64);
        let total: u64 = BASE_CHUNKS as u64 + redundant;
        let mut chunks: Vec<BlockChunk> = Vec::new();
        let mut i: u64 = 0;
        while i < total
            invariant
                i <= total,
                total == chunk_count(redundancy_level),
                total <= u32::MAX,
                chunks@.len() == i,
                forall|k: int| 0 <= k < i ==> (#[trigger] chunks@[k]).deep_view() == coded_chunk(block.id, k),
            decreases total - i,
        {
            let chunk = BlockChunk {
                chunk_id: i as u32,
                block_id: block.id,
                data: filled((i % 256) as u8),
                checksum: i * CHUNK_SEED_FACTOR + block.id as u64,
            };
            assert(chunk.deep_view() =~= coded_chunk(block.id, i as int));
            chunks.push(chunk);
            i += 1;
        }
        let coded = ErasureCodedBlock { block, chunks, redundancy_level, required_chunks: BASE_CHUNKS };
        assert(coded.deep_view().chunks =~= coded_block(block, redundancy_level).chunks);
        coded
    }

    /// The node that relays chunk `chunk_id`, where `total_stake` is the sum of all stakes.
    fn select_relay_node_for_chunk(&self, chunk_id: u32, total_stake: u128) -> (r: Option<NodeId>)
        requires
            self.stake_distribution.wf(),
            total_stake == total_of(self.stake_distribution@),
        ensures
            r == relay_for(self.stake_distribution@, chunk_id),
    {
        let ghost stakes = self.stake_distribution@;
        let ghost keys = self.stake_distribution.key_seq();
        proof {
            self.stake_distribution.lemma_ordered_keys();
            self.stake_distribution.lemma_entries();
        }
        if total_stake == 0 {
            return None;
        }
        let seed: u128 = chunk_id as u128 * CHUNK_SEED_FACTOR as u128;
        let target: u128 = seed % total_stake;
        let n = self.stake_distribution.len();
        let mut acc: u128 = 0;
        let mut i: usize = 0;
        while i < n
            invariant
                i <= n,
                n == keys.len(),
                self.stake_distribution.wf(),
                keys == self.stake_distribution.key_seq(),
                stakes == self.stake_distribution@,
                acc == stake_sum(stakes, keys, i as int),
                relay_index(stakes, keys, target as int, i as int) == i,
                total_stake == stake_sum(stakes, keys, n as int),
                total_stake == total_of(stakes),
                total_stake > 0,
                ordered_keys(stakes) == keys,
                target == chunk_target(chunk_id, total_stake as int),
                target < total_stake,
                acc < target || i == 0,
            decreases n - i,
        {
            let k = self.stake_distribution.key_at(i);
            let v = *self.stake_distribution.value_at(i);
            proof {
                crate::state::lemma_stake_sum_bound(stakes, keys, i as int);
                assert(i * u64::MAX + u64::MAX <= 0xFFFF_FFFF_FFFF_FFFF * 0x1_0000_0000_0000_0000) by (nonlinear_arith)
                    requires
                        i < 0xFFFF_FFFF_FFFF_FFFF,
                ;
            }
            acc = acc + v as u128;
            if acc >= target {
                proof {
                    assert(relay_index(stakes, keys, target as int, i + 1) == i);
                    lemma_relay_index_stable(stakes, keys, target as int, i + 1, n as int);
                }
                return Some(k);
            }
            i += 1;
        }
        None
    }

    /// The relays of an erasure-coded block, each with the chunks it carries.
    pub fn select_relay_nodes(&self, block_id: BlockId, erasure_block: &ErasureCodedBlock) -> (relays: Vec<
        RelayNode,
    >)
        requires
            self.stake_distribution.wf(),
        ensures
            relays.deep_view() == relays_prefix(
                self.deep_view().stake_distribution,
                erasure_block.deep_view().chunks,
                erasure_block.deep_view().chunks.len() as int,
            ),
    {
        let ghost stakes = self.stake_distribution@;
        let ghost chunks = erasure_block.deep_view().chunks;
        let total = self.total_stake_wide();
        let mut relays: Vec<RelayNode> = Vec::new();
        let mut i: usize = 0;
        assert(relays.deep_view() =~= relays_prefix(stakes, chunks, 0));
        while i < erasure_block.chunks.len()
            invariant
                i <= erasure_block.chunks@.len(),
                self.stake_distribution.wf(),
                stakes == self.stake_distribution@,
                chunks == erasure_block.deep_view().chunks,
                chunks.len() == erasure_block.chunks@.len(),
                total == total_of(stakes),
                relays.deep_view() == relays_prefix(stakes, chunks, i as int),
            decreases erasure_block.chunks@.len() - i,
        {
            let chunk_id = erasure_block.chunks[i].chunk_id;
            assert(chunks[i as int] == erasure_block.chunks@[i as int].deep_view());
            match self.select_relay_node_for_chunk(chunk_id, total) {
                Some(node_id) => {
                    let ghost before = relays.deep_view();
                    match find_relay(&relays, node_id) {
                        Some(pos) => {
                            relays[pos].assigned_chunks.push(chunk_id);
                            assert(relays.deep_view() =~= assign_chunk(
                                before,
                                node_id,
                                self.deep_view().stake_of(node_id),
                                chunk_id,
                            ));
                        },
                        None => {
                            let stake_weight = self.stake_of(node_id);
                            let mut assigned: Vec<u32> = Vec::new();
                            assigned.push(chunk_id);
                            assert(assigned@ =~= seq![chunk_id]);
                            relays.push(
                                RelayNode {
                                    node_id,
                                    stake_weight,
                                    reliability_score: Fraction::from_micros(DEFAULT_RELIABILITY_MICROS),
                                    assigned_chunks: assigned,
                                },
                            );
                            assert(relays.deep_view() =~= assign_chunk(
                                before,
                                node_id,
                                self.deep_view().stake_of(node_id),
                                chunk_id,
                            ));
                        },
                    }
                },
                None => {},
            }
            i += 1;
        }
        relays
    }
}

impl StateView {
    /// Whether block `block_id` can be put together again: it is known, and
    /// at least as many of its chunks as it requires are held by some node.
    pub open spec fn can_reconstruct(self, block_id: BlockId) -> bool {
        self.erasure_coded_blocks.contains_key(block_id) && available_chunks(
            self.chunk_availability,
            block_id,
        ).len() >= self.erasure_coded_blocks[block_id].required_chunks
    }

    /// The state with `node` among the holders of the chunk `key`.
    pub open spec fn mark_available(self, key: (BlockId, u32), node: NodeId) -> StateView {
        StateView { chunk_availability: mark(self.chunk_availability, key, node), ..self }
    }

    /// The state after `node` has passed on the chunks of block `block_id`
    /// that it relays: it holds each of them. Nothing changes where the node
    /// relays nothing.
    pub open spec fn propagate_chunks(self, node: NodeId, block_id: BlockId) -> StateView {
        if self.relay_assignments.contains_key(node) {
            let assigned = self.relay_assignments[node].assigned_chunks;
            StateView {
                chunk_availability: mark_chunks(
                    self.chunk_availability,
                    block_id,
                    assigned,
                    node,
                    assigned.len() as int,
                ),
                ..self
            }
        } else {
            self
        }
    }

    /// The state after `node` has propagated `block`: the block is known,
    /// its relays are assigned, and `node` holds the chunks it relays.
    pub open spec fn propagate_erasure_block(self, node: NodeId, block: ErasureCodedBlockView) -> StateView {
        let relays = relays_prefix(self.stake_distribution, block.chunks, block.chunks.len() as int);
        (StateView {
            erasure_coded_blocks: self.erasure_coded_blocks.insert(block.block.id, block),
            relay_assignments: assign_all(self.relay_assignments, relays, relays.len() as int),
            ..self
        }).propagate_chunks(node, block.block.id)
    }

    /// The state after a chunk has reached `targets`: each of them holds it.
    pub open spec fn propagate_chunk(self, chunk: BlockChunkView, targets: Seq<NodeId>) -> StateView {
        StateView {
            chunk_availability: mark_targets(
                self.chunk_availability,
                (chunk.block_id, chunk.chunk_id),
                targets,
                targets.len() as int,
            ),
            ..self
        }
    }

    /// The state after `node` has put block `block_id` together again: it
    /// holds every chunk of the block. Nothing changes where the block
    /// cannot be put together.
    pub open spec fn reconstruct_block(self, node: NodeId, block_id: BlockId) -> StateView {
        if self.can_reconstruct(block_id) {
            let ids = chunk_ids(self.erasure_coded_blocks[block_id].chunks);
            StateView {
                chunk_availability: mark_chunks(self.chunk_availability, block_id, ids, node, ids.len() as int),
                ..self
            }
        } else {
            self
        }
    }

    /// The state with `relays` assigned, each under its node.
    pub open spec fn assign_relay_nodes(self, relays: Seq<RelayNodeView>) -> StateView {
        StateView {
            relay_assignments: assign_all(self.relay_assignments, relays, relays.len() as int),
            ..self
        }
    }
}

impl AlpenglowState {
    /// Whether block `block_id` can be put together again.
    pub fn can_reconstruct_block(&self, block_id: BlockId) -> (b: bool)
        requires
            self.wf(),
        ensures
            b == self.deep_view().can_reconstruct(block_id),
    {
        match self.erasure_coded_blocks.get(&block_id) {
            None => false,
            Some(erasure_block) => {
                let ghost avail = self.chunk_availability.deep_view();
                let ghost keys = self.chunk_availability.key_seq();
                proof {
                    self.chunk_availability.lemma_deep_view();
                    self.chunk_availability.lemma_entries();
                }
                let n = self.chunk_availability.len();
                let mut count: usize = 0;
                let mut i: usize = 0;
                while i < n
                    invariant
                        i <= n,
                        n == keys.len(),
                        self.wf(),
                        avail == self.chunk_availability.deep_view(),
                        keys == self.chunk_availability.key_seq(),
                        count <= i,
                        count == found_chunks(avail, keys, block_id, i as int).len(),
                        found_chunks(avail, keys, block_id, i as int).finite(),
                    decreases n - i,
                {
                    let key = self.chunk_availability.key_at(i);
                    let set = self.chunk_availability.value_at(i);
                    proof {
                        self.chunk_availability.lemma_deep_view();
                        self.chunk_availability.lemma_entries();
                        assert(avail[keys[i as int]] == set@);
                        lemma_found_chunks(avail, keys, block_id, i as int);
                        let prev = found_chunks(avail, keys, block_id, i as int);
                        if key.0 == block_id && set@ != Set::<NodeId>::empty() {
                            if prev.contains(key.1) {
                                let j = choose|j: int|
                                    0 <= j < i && #[trigger] keys[j] == (block_id, key.1) && avail[keys[j]]
                                        != Set::<NodeId>::empty();
                                lemma_ascending_unique(keys, j, i as int);
                            }
                        }
                    }
                    if key.0 == block_id && !set.is_empty() {
                        count += 1;
                    }
                    i += 1;
                }
                proof {
                    lemma_found_chunks(avail, keys, block_id, n as int);
                    self.chunk_availability.lemma_deep_view();
                    self.chunk_availability.lemma_entries();
                    let found = found_chunks(avail, keys, block_id, n as int);
                    let want = available_chunks(avail, block_id);
                    assert forall|c: u32| found.contains(c) <==> want.contains(c) by {
                        if found.contains(c) {
                            let j = choose|j: int|
                                0 <= j < n && #[trigger] keys[j] == (block_id, c) && avail[keys[j]] != Set::<
                                    NodeId,
                                >::empty();
                            assert(self.chunk_availability@.contains_key(keys[j]));
                        }
                        if want.contains(c) {
                            let j = keys.index_of((block_id, c));
                            assert(keys[j] == (block_id, c));
                        }
                    }
                    assert(found =~= want);
                    assert(self.deep_view().erasure_coded_blocks[block_id].required_chunks
                        == erasure_block.required_chunks);
                }
                count >= erasure_block.required_chunks
            },
        }
    }

    /// Puts `node` among the holders of the chunk `key`.
    pub fn mark_available(&mut self, key: (BlockId, u32), node: NodeId)
        requires
            old(self).wf(),
        ensures
            final(self).wf(),
            final(self).deep_view() == old(self).deep_view().mark_available(key, node),
    {
        let ghost before = *self;
        let mut set = match self.chunk_availability.remove(&key) {
            Some(set) => set,
            None => SortedSet::new(),
        };
        set.insert(node);
        let ghost stored = set;
        self.chunk_availability.insert(key, set);
        proof {
            assert(self.chunk_availability@ =~= before.chunk_availability@.insert(key, stored));
            lemma_deep_insert(before.chunk_availability, self.chunk_availability, key, stored);
            assert(self.deep_view() =~= before.deep_view().mark_available(key, node));
        }
    }

    /// Puts `node` among the holders of each of `ids`, chunks of block `block_id`.
    fn mark_chunk_list(&mut self, block_id: BlockId, ids: &Vec<u32>, node: NodeId)
        requires
            old(self).wf(),
        ensures
            final(self).wf(),
            final(self).deep_view() == (StateView {
                chunk_availability: mark_chunks(
                    old(self).deep_view().chunk_availability,
                    block_id,
                    ids@,
                    node,
                    ids@.len() as int,
                ),
                ..old(self).deep_view()
            }),
    {
        let ghost start = self.deep_view();
        let mut i: usize = 0;
        assert(self.deep_view() =~= StateView {
            chunk_availability: mark_chunks(start.chunk_availability, block_id, ids@, node, 0),
            ..start
        });
        while i < ids.len()
            invariant
                i <= ids@.len(),
                self.wf(),
                self.deep_view() == (StateView {
                    chunk_availability: mark_chunks(start.chunk_availability, block_id, ids@, node, i as int),
                    ..start
                }),
            decreases ids@.len() - i,
        {
            self.mark_available((block_id, ids[i]), node);
            i += 1;
            assert(self.deep_view() =~= StateView {
                chunk_availability: mark_chunks(start.chunk_availability, block_id, ids@, node, i as int),
                ..start
            });
        }
    }

    /// `node_id` passes on the chunks of `erasure_block` that it relays.
    pub fn propagate_chunks(&mut self, node_id: NodeId, erasure_block: &ErasureCodedBlock)
        requires
            old(self).wf(),
        ensures
            final(self).wf(),
            final(self).deep_view() == old(self).deep_view().propagate_chunks(node_id, erasure_block.block.id),
    {
        self.propagate_relayed(node_id, erasure_block.block.id);
    }

    /// `node_id` passes on the chunks of block `block_id` that it relays.
    pub fn propagate_relayed(&mut self, node_id: NodeId, block_id: BlockId)
        requires
            old(self).wf(),
        ensures
            final(self).wf(),
            final(self).deep_view() == old(self).deep_view().propagate_chunks(node_id, block_id),
    {
        let assigned = match self.relay_assignments.get(&node_id) {
            Some(relay) => Some(copy_ids(&relay.assigned_chunks)),
            None => None,
        };
        match assigned {
            Some(ids) => {
                self.mark_chunk_list(block_id, &ids, node_id);
            },
            None => {},
        }
    }

    /// Assigns `relays`, each under its node.
    pub fn assign_relay_nodes(&mut self, relays: Vec<RelayNode>)
        requires
            old(self).wf(),
        ensures
            final(self).wf(),
            final(self).deep_view() == old(self).deep_view().assign_relay_nodes(relays.deep_view()),
    {
        let ghost start = self.deep_view();
        let ghost all = relays.deep_view();
        let mut rest = relays;
        let ghost mut k: int = 0;
        assert(self.deep_view() =~= StateView {
            relay_assignments: assign_all(start.relay_assignments, all, 0),
            ..start
        });
        assert(rest.deep_view() =~= all.subrange(0, all.len() as int));
        while rest.len() > 0
            invariant
                self.wf(),
                0 <= k <= all.len(),
                rest@.len() == all.len() - k,
                rest.deep_view() == all.subrange(k, all.len() as int),
                self.deep_view() == (StateView {
                    relay_assignments: assign_all(start.relay_assignments, all, k),
                    ..start
                }),
            decreases rest@.len(),
        {
            let ghost before = *self;
            let ghost rest_before = rest.deep_view();
            let ghost rest_items = rest@;
            let relay = rest.remove(0);
            let ghost r = relay;
            proof {
                assert(r == rest_items[0]);
                assert(r.deep_view() == rest_before[0]);
                assert forall|j: int| 0 <= j < rest@.len() implies rest.deep_view()[j] == all.subrange(
                    k + 1,
                    all.len() as int,
                )[j] by {
                    assert(rest@[j] == rest_items[j + 1]);
                    assert(rest_before[j + 1] == rest_items[j + 1].deep_view());
                }
                assert(rest.deep_view() =~= all.subrange(k + 1, all.len() as int));
            }
            self.relay_assignments.insert(relay.node_id, relay);
            proof {
                lemma_deep_insert(before.relay_assignments, self.relay_assignments, r.node_id, r);
                k = k + 1;
                assert(self.deep_view() =~= StateView {
                    relay_assignments: assign_all(start.relay_assignments, all, k),
                    ..start
                });
            }
        }
    }

    /// `node` propagates `erasure_block`.
    pub fn propagate_erasure_block(&mut self, node: NodeId, erasure_block: ErasureCodedBlock)
        requires
            old(self).wf(),
        ensures
            final(self).wf(),
            final(self).deep_view() == old(self).deep_view().propagate_erasure_block(
                node,
                erasure_block.deep_view(),
            ),
    {
        let ghost before = *self;
        let ghost block = erasure_block;
        let block_id = erasure_block.block.id;
        let relays = self.select_relay_nodes(block_id, &erasure_block);
        self.erasure_coded_blocks.insert(block_id, erasure_block);
        proof {
            lemma_deep_insert(before.erasure_coded_blocks, self.erasure_coded_blocks, block_id, block);
            assert(self.deep_view() =~= StateView {
                erasure_coded_blocks: before.deep_view().erasure_coded_blocks.insert(block_id, block.deep_view()),
                ..before.deep_view()
            });
        }
        self.assign_relay_nodes(relays);
        self.propagate_relayed(node, block_id);
    }

    /// A chunk reaches `target_nodes`.
    pub fn propagate_chunk(&mut self, chunk: &BlockChunk, target_nodes: &Vec<NodeId>)
        requires
            old(self).wf(),
        ensures
            final(self).wf(),
            final(self).deep_view() == old(self).deep_view().propagate_chunk(chunk.deep_view(), target_nodes@),
    {
        let ghost start = self.deep_view();
        let key = (chunk.block_id, chunk.chunk_id);
        let mut i: usize = 0;
        assert(self.deep_view() =~= StateView {
            chunk_availability: mark_targets(start.chunk_availability, key, target_nodes@, 0),
            ..start
        });
        while i < target_nodes.len()
            invariant
                i <= target_nodes@.len(),
                self.wf(),
                self.deep_view() == (StateView {
                    chunk_availability: mark_targets(start.chunk_availability, key, target_nodes@, i as int),
                    ..start
                }),
            decreases target_nodes@.len() - i,
        {
            self.mark_available(key, target_nodes[i]);
            i += 1;
            assert(self.deep_view() =~= StateView {
                chunk_availability: mark_targets(start.chunk_availability, key, target_nodes@, i as int),
                ..start
            });
        }
    }

    /// The ids of the chunks of block `block_id`, where the block is known.
    fn chunk_ids_of(&self, block_id: BlockId) -> (r: Option<Vec<u32>>)
        requires
            self.wf(),
        ensures
            r is Some == self.deep_view().erasure_coded_blocks.contains_key(block_id),
            r is Some ==> r.unwrap()@ == chunk_ids(self.deep_view().erasure_coded_blocks[block_id].chunks),
    {
        match self.erasure_coded_blocks.get(&block_id) {
            None => None,
            Some(erasure_block) => {
                let ghost chunks = erasure_block.deep_view().chunks;
                let mut ids: Vec<u32> = Vec::new();
                let mut i: usize = 0;
                while i < erasure_block.chunks.len()
                    invariant
                        i <= erasure_block.chunks@.len(),
                        chunks == erasure_block.deep_view().chunks,
                        ids@ == chunk_ids(chunks).subrange(0, i as int),
                    decreases erasure_block.chunks@.len() - i,
                {
                    ids.push(erasure_block.chunks[i].chunk_id);
                    i += 1;
                    assert(ids@ =~= chunk_ids(chunks).subrange(0, i as int));
                }
                assert(ids@ =~= chunk_ids(chunks));
                Some(ids)
            },
        }
    }

    /// `node` puts block `block_id` together again.
    pub fn reconstruct_block(&mut self, node: NodeId, block_id: BlockId)
        requires
            old(self).wf(),
        ensures
            final(self).wf(),
            final(self).deep_view() == old(self).deep_view().reconstruct_block(node, block_id),
    {
        if self.can_reconstruct_block(block_id) {
            match self.chunk_ids_of(block_id) {
                Some(ids) => {
                    self.mark_chunk_list(block_id, &ids, node);
                },
                None => {},
            }
        }
    }
}

impl Duplicate for BlockChunk {
    open spec fn intact(&self) -> bool {
        true
    }

    fn duplicate(&self) -> (copy: Self) {
        BlockChunk {
            chunk_id: self.chunk_id,
            block_id: self.block_id,
            data: copy_list(&self.data),
            checksum: self.checksum,
        }
    }
}

impl Duplicate for ErasureCodedBlock {
    open spec fn intact(&self) -> bool {
        true
    }

    fn duplicate(&self) -> (copy: Self) {
        ErasureCodedBlock {
            block: self.block,
            chunks: self.chunks.duplicate(),
            redundancy_level: self.redundancy_level,
            required_chunks: self.required_chunks,
        }
    }
}

impl Duplicate for RelayNode {
    open spec fn intact(&self) -> bool {
        true
    }

    fn duplicate(&self) -> (copy: Self) {
        RelayNode {
            node_id: self.node_id,
            stake_weight: self.stake_weight,
            reliability_score: self.reliability_score,
            assigned_chunks: copy_list(&self.assigned_chunks),
        }
    }
}

} // verus!
