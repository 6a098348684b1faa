//! The consensus engine: votes, certificates, timeouts, skip certificates
//! and the clock.
//!
//! An operation that does not apply leaves the state as it is: a vote of a
//! node that is not honest, a vote that is already recorded, a step that
//! would carry a counter beyond the range of its type.

use vstd::prelude::*;
use crate::byzantine::{
    execute_byzantine_strategy, strategy_delay, strategy_votes, ByzantineStrategy, StrategyView,
};
use crate::sorted_map::{lemma_deep_insert, ordered_keys};
use crate::sorted_set::SortedSet;
use crate::state::{
    percent_of, AlpenglowState, StateView, FAST_QUORUM_PERCENT, SLOT_HORIZON, SLOW_QUORUM_PERCENT,
    TICKS_PER_SLOT,
};
use crate::types::{
    BlockId, Certificate, CertificateView, FinalizedBlock, NodeId, SkipCertificate, SkipCertificateView,
    Slot, StakeAmount, TimeoutInfo, Timestamp, Vote, VotePath,
};

verus! {

/// The share of the registry that must have timed out before a slot is skipped, in percent.
pub const SKIP_NODE_PERCENT: u64 = 60;

/// The votes for `slot` of the first `n` of `keys`, node after node.
pub open spec fn slot_votes_prefix(
    votes: Map<NodeId, Map<Slot, Seq<Vote>>>,
    slot: Slot,
    keys: Seq<NodeId>,
    n: int,
) -> Seq<Vote>
    decreases n,
{
    if n <= 0 {
        Seq::empty()
    } else {
        slot_votes_prefix(votes, slot, keys, n - 1) + if votes[keys[n - 1]].contains_key(slot) {
            votes[keys[n - 1]][slot]
        } else {
            Seq::empty()
        }
    }
}

/// The stake behind `block` on `path` among the first `n` votes of `list`.
pub open spec fn tally(list: Seq<Vote>, path: VotePath, block: BlockId, n: int) -> int
    decreases n,
{
    if n <= 0 {
        0
    } else {
        tally(list, path, block, n - 1) + if list[n - 1].path == path && list[n - 1].block == block {
            list[n - 1].stake as int
        } else {
            0
        }
    }
}

/// The stake of the first `n` votes of `list`.
pub open spec fn vote_stake(list: Seq<Vote>, n: int) -> int
    decreases n,
{
    if n <= 0 {
        0
    } else {
        vote_stake(list, n - 1) + list[n - 1].stake
    }
}

/// Whether `list` holds a vote for `block` on `path`.
pub open spec fn supported(list: Seq<Vote>, path: VotePath, block: BlockId) -> bool {
    exists|i: int| 0 <= i < list.len() && (#[trigger] list[i]).path == path && list[i].block == block
}

/// Whether `block` has votes on `path` and the stake behind it reaches `required`.
pub open spec fn qualifies(list: Seq<Vote>, path: VotePath, block: BlockId, required: int) -> bool {
    supported(list, path, block) && tally(list, path, block, list.len() as int) >= required
}

/// Whether `block` is the block with the smallest id that qualifies.
pub open spec fn is_winner(list: Seq<Vote>, path: VotePath, required: int, block: BlockId) -> bool {
    qualifies(list, path, block, required) && forall|c: BlockId|
        qualifies(list, path, c, required) ==> block <= c
}

/// Whether some block qualifies.
pub open spec fn has_winner(list: Seq<Vote>, path: VotePath, required: int) -> bool {
    exists|b: BlockId| qualifies(list, path, b, required)
}

/// The block with the smallest id that qualifies.
pub open spec fn winner(list: Seq<Vote>, path: VotePath, required: int) -> BlockId {
    choose|b: BlockId| is_winner(list, path, required, b)
}

/// The votes of `list` for `block` on `path`.
pub open spec fn votes_for(list: Seq<Vote>, path: VotePath, block: BlockId) -> Set<Vote> {
    Set::new(|v: Vote| list.contains(v) && v.path == path && v.block == block)
}

/// Whether the ledger holds a block for `slot`.
pub open spec fn finalized(ledger: Seq<FinalizedBlock>, slot: Slot) -> bool {
    exists|i: int| 0 <= i < ledger.len() && (#[trigger] ledger[i]).slot == slot
}

/// Whether `list` holds a vote for `block` on `path`, whoever cast it.
pub open spec fn voted(list: Seq<Vote>, block: BlockId, path: VotePath) -> bool {
    exists|i: int| 0 <= i < list.len() && (#[trigger] list[i]).block == block && list[i].path == path
}

/// Whether `list` holds a vote of `node` for `block` on `path`.
pub open spec fn voted_by(list: Seq<Vote>, node: NodeId, block: BlockId, path: VotePath) -> bool {
    exists|i: int|
        0 <= i < list.len() && (#[trigger] list[i]).node == node && list[i].block == block && list[i].path
            == path
}

impl StateView {
    /// Whether the state keeps a vote list for `node` in `slot`.
    pub open spec fn has_vote_list(self, node: NodeId, slot: Slot) -> bool {
        self.votes.contains_key(node) && self.votes[node].contains_key(slot)
    }

    /// The state with `vote` appended to the list of `owner` for the vote's
    /// slot; the state itself where there is no such list.
    pub open spec fn append_vote(self, owner: NodeId, vote: Vote) -> StateView {
        if self.has_vote_list(owner, vote.slot) {
            StateView {
                votes: self.votes.insert(
                    owner,
                    self.votes[owner].insert(vote.slot, self.votes[owner][vote.slot].push(vote)),
                ),
                ..self
            }
        } else {
            self
        }
    }

    /// The state with `vote` appended to the list of its own node and slot.
    pub open spec fn record_vote(self, vote: Vote) -> StateView {
        self.append_vote(vote.node, vote)
    }

    /// The state with the first `n` of `votes` recorded, one after the other.
    pub open spec fn record_votes(self, votes: Seq<Vote>, n: int) -> StateView
        decreases n,
    {
        if n <= 0 {
            self
        } else {
            self.record_votes(votes, n - 1).record_vote(votes[n - 1])
        }
    }

    /// Whether `node` is registered as honest.
    pub open spec fn is_honest(self, node: NodeId) -> bool {
        self.status.contains_key(node) && self.status[node] is Honest
    }

    /// Whether `node` is registered as Byzantine.
    pub open spec fn is_byzantine(self, node: NodeId) -> bool {
        self.status.contains_key(node) && self.status[node] is Byzantine
    }

    /// The state after an honest vote. The vote carries the node's current
    /// stake. Nothing changes where the node is not honest, has no list for
    /// the slot, or the list already holds a vote for `block` on `path`.
    pub open spec fn vote(self, node: NodeId, slot: Slot, block: BlockId, path: VotePath) -> StateView {
        if self.is_honest(node) && self.has_vote_list(node, slot) && !voted(
            self.votes[node][slot],
            block,
            path,
        ) {
            self.record_vote(Vote { node, slot, block, path, stake: self.stake_of(node) })
        } else {
            self
        }
    }

    /// The timeout record of `node` for `slot`.
    pub open spec fn timeout_info(self, node: NodeId, slot: Slot) -> Option<TimeoutInfo> {
        if self.timeouts.contains_key(node) && self.timeouts[node].contains_key(slot) {
            Some(self.timeouts[node][slot])
        } else {
            None
        }
    }

    /// How often `node` has timed out in `slot`.
    pub open spec fn timeout_count(self, node: NodeId, slot: Slot) -> u32 {
        match self.timeout_info(node, slot) {
            Some(info) => info.count,
            None => 0,
        }
    }

    /// The state after a Byzantine node has acted: the clock moved by the
    /// strategy's delay, then its votes recorded without any duplicate check.
    /// Nothing changes where the node is not Byzantine or the clock would
    /// leave its range.
    pub open spec fn byzantine_vote(self, node: NodeId, strategy: StrategyView, slot: Slot) -> StateView {
        let count = self.timeout_count(node, slot);
        let delay = strategy_delay(strategy, count);
        let votes = strategy_votes(strategy, node, slot, self.stake_of(node), count);
        if self.is_byzantine(node) && self.global_time + delay <= u64::MAX {
            (StateView { global_time: (self.global_time + delay) as u64, ..self }).record_votes(
                votes,
                votes.len() as int,
            )
        } else {
            self
        }
    }

    /// The state after an honest node has timed out in a slot: one more
    /// timeout, the last one now. Nothing changes where the node is not
    /// honest, has no record for the slot, or the count is at its maximum.
    pub open spec fn timeout(self, node: NodeId, slot: Slot) -> StateView {
        match self.timeout_info(node, slot) {
            Some(info) => {
                if self.is_honest(node) && info.count < u32::MAX {
                    StateView {
                        timeouts: self.timeouts.insert(
                            node,
                            self.timeouts[node].insert(
                                slot,
                                TimeoutInfo {
                                    count: (info.count + 1) as u32,
                                    last_timeout: self.global_time,
                                    threshold: info.threshold,
                                },
                            ),
                        ),
                        ..self
                    }
                } else {
                    self
                }
            },
            None => self,
        }
    }

    /// The state after the clock has moved by `delta`. Where the new time
    /// is a multiple of `TICKS_PER_SLOT` and the horizon is not reached, the
    /// next slot begins: its leader takes over, and a new window starts
    /// where the slot lies behind the current one. Nothing changes where the
    /// clock would leave its range.
    pub open spec fn advance_time(self, delta: Timestamp) -> StateView {
        if self.global_time + delta > u64::MAX {
            self
        } else {
            let now = (self.global_time + delta) as u64;
            let ticked = StateView { global_time: now, ..self };
            if now % TICKS_PER_SLOT == 0 && self.current_slot < SLOT_HORIZON {
                let slot = (self.current_slot + 1) as Slot;
                (StateView { current_slot: slot, ..ticked }).rotate_leader(slot).update_window(
                    slot,
                    self.current_window.window_size,
                    self.current_window.finality_depth,
                )
            } else {
                ticked
            }
        }
    }

    /// All recorded votes for `slot`, node after node in ascending order of
    /// the node ids, each node's votes in the order of their recording.
    pub open spec fn slot_votes(self, slot: Slot) -> Seq<Vote> {
        slot_votes_prefix(self.votes, slot, ordered_keys(self.votes), ordered_keys(self.votes).len() as int)
    }

    /// The stake that a certificate on `path` needs.
    pub open spec fn required_stake(self, path: VotePath) -> int {
        match path {
            VotePath::Fast => self.fast_quorum(),
            VotePath::Slow => self.slow_quorum(),
        }
    }

    /// The state after an attempt to certify `slot` on `path`. Among the
    /// blocks whose votes on `path` reach the quorum, the one with the
    /// smallest id is certified: its certificate takes the place of any
    /// earlier one for the slot, and the block is appended to the ledger
    /// unless the ledger has a block for the slot. Nothing changes where no
    /// block reaches the quorum, or the stake behind the block leaves the
    /// range of `StakeAmount`.
    pub open spec fn certify(self, slot: Slot, path: VotePath) -> StateView {
        let list = self.slot_votes(slot);
        let required = self.required_stake(path);
        let block = winner(list, path, required);
        let total = tally(list, path, block, list.len() as int);
        if has_winner(list, path, required) && total <= u64::MAX {
            StateView {
                certificates: self.certificates.insert(
                    slot,
                    CertificateView {
                        votes: votes_for(list, path, block),
                        slot,
                        block,
                        total_stake: total as u64,
                        path,
                    },
                ),
                ledger: if finalized(self.ledger, slot) {
                    self.ledger
                } else {
                    self.ledger.push(
                        FinalizedBlock {
                            slot,
                            block_id: block,
                            finalization_time: self.global_time,
                            total_stake: total as u64,
                        },
                    )
                },
                ..self
            }
        } else {
            self
        }
    }

    /// Whether `node` has reached its timeout threshold in `slot`.
    pub open spec fn timed_out(self, node: NodeId, slot: Slot) -> bool {
        match self.timeout_info(node, slot) {
            Some(info) => info.count >= info.threshold,
            None => false,
        }
    }

    /// How many of the first `n` nodes of the registry have reached their
    /// timeout threshold in `slot`.
    pub open spec fn timed_out_count(self, slot: Slot, n: int) -> int
        decreases n,
    {
        if n <= 0 {
            0
        } else {
            self.timed_out_count(slot, n - 1) + if self.timed_out(self.nodes[n - 1], slot) {
                1int
            } else {
                0int
            }
        }
    }

    /// Whether enough of the registry has timed out in `slot`: `SKIP_NODE_PERCENT` of it, rounded down.
    pub open spec fn skip_ready(self, slot: Slot) -> bool {
        self.timed_out_count(slot, self.nodes.len() as int) >= percent_of(
            self.nodes.len() as int,
            SKIP_NODE_PERCENT as int,
        )
    }

    /// The state after an attempt to skip `slot`. Where enough nodes have
    /// timed out and the stake of all votes recorded for the slot reaches
    /// the slow quorum, a skip certificate that seals those votes takes the
    /// place of any earlier one. Nothing changes otherwise, or where that
    /// stake leaves the range of `StakeAmount`.
    pub open spec fn skip_cert(self, slot: Slot) -> StateView {
        let list = self.slot_votes(slot);
        let total = vote_stake(list, list.len() as int);
        if self.skip_ready(slot) && total >= self.slow_quorum() && total <= u64::MAX {
            StateView {
                skip_certs: self.skip_certs.insert(
                    slot,
                    SkipCertificateView { slot, timeout_votes: list.to_set(), total_stake: total as u64 },
                ),
                ..self
            }
        } else {
            self
        }
    }
}

/// The model of a list of votes is the list.
pub proof fn lemma_vote_list_view(list: Vec<Vote>)
    ensures
        list.deep_view() == list@,
{
    assert(list.deep_view() =~= list@);
}

/// A partial tally is below `n` times the largest stake.
pub proof fn lemma_tally_bound(list: Seq<Vote>, path: VotePath, block: BlockId, n: int)
    requires
        0 <= n,
    ensures
        0 <= tally(list, path, block, n) <= n * u64::MAX,
    decreases n,
{
    if n > 0 {
        lemma_tally_bound(list, path, block, n - 1);
        assert((n - 1) * u64::MAX + u64::MAX == n * u64::MAX) by (nonlinear_arith);
    }
}

/// A partial sum of vote stakes is below `n` times the largest stake.
pub proof fn lemma_vote_stake_bound(list: Seq<Vote>, n: int)
    requires
        0 <= n,
    ensures
        0 <= vote_stake(list, n) <= n * u64::MAX,
    decreases n,
{
    if n > 0 {
        lemma_vote_stake_bound(list, n - 1);
        assert((n - 1) * u64::MAX + u64::MAX == n * u64::MAX) by (nonlinear_arith);
    }
}

/// There is at most one winner.
pub proof fn lemma_winner_unique(list: Seq<Vote>, path: VotePath, required: int, block: BlockId)
    requires
        is_winner(list, path, required, block),
    ensures
        has_winner(list, path, required),
        winner(list, path, required) == block,
{
    let w = winner(list, path, required);
    assert(is_winner(list, path, required, w));
}

/// The stake behind `block` on `path` in `list`.
fn tally_of(list: &Vec<Vote>, path: VotePath, block: BlockId) -> (t: u128)
    ensures
        t == tally(list@, path, block, list@.len() as int),
{
    let mut acc: u128 = 0;
    let mut i: usize = 0;
    while i < list.len()
        invariant
            i <= list@.len(),
            acc == tally(list@, path, block, i as int),
        decreases list@.len() - i,
    {
        proof {
            lemma_tally_bound(list@, path, block, i as int);
            assert(i * u64::MAX + u64::MAX <= 0xFFFF_FFFF_FFFF_FFFF * 0x1_0000_0000_0000_0000) by (nonlinear_arith)
                requires
                    i < 0xFFFF_FFFF_FFFF_FFFF,
            ;
        }
        if list[i].path == path && list[i].block == block {
            acc = acc + list[i].stake as u128;
        }
        i += 1;
    }
    acc
}

/// The stake of all votes of `list`.
fn stake_of_votes(list: &Vec<Vote>) -> (t: u128)
    ensures
        t == vote_stake(list@, list@.len() as int),
{
    let mut acc: u128 = 0;
    let mut i: usize = 0;
    while i < list.len()
        invariant
            i <= list@.len(),
            acc == vote_stake(list@, i as int),
        decreases list@.len() - i,
    {
        proof {
            lemma_vote_stake_bound(list@, i as int);
            assert(i * u64::MAX + u64::MAX <= 0xFFFF_FFFF_FFFF_FFFF * 0x1_0000_0000_0000_0000) by (nonlinear_arith)
                requires
                    i < 0xFFFF_FFFF_FFFF_FFFF,
            ;
        }
        acc = acc + list[i].stake as u128;
        i += 1;
    }
    acc
}

/// The block with the smallest id whose votes on `path` reach `required`,
/// with the stake behind it.
pub fn find_winner(list: &Vec<Vote>, path: VotePath, required: u128) -> (r: Option<(BlockId, u128)>)
    ensures
        match r {
            Some((block, total)) => is_winner(list@, path, required as int, block) && total == tally(
                list@,
                path,
                block,
                list@.len() as int,
            ),
            None => !has_winner(list@, path, required as int),
        },
{
    let mut best: Option<(BlockId, u128)> = None;
    let mut i: usize = 0;
    while i < list.len()
        invariant
            i <= list@.len(),
            match best {
                Some((block, total)) => qualifies(list@, path, block, required as int) && total == tally(
                    list@,
                    path,
                    block,
                    list@.len() as int,
                ) && forall|j: int|
                    0 <= j < i && (#[trigger] list@[j]).path == path && qualifies(
                        list@,
                        path,
                        list@[j].block,
                        required as int,
                    ) ==> block <= list@[j].block,
                None => forall|j: int|
                    0 <= j < i && (#[trigger] list@[j]).path == path ==> !qualifies(
                        list@,
                        path,
                        list@[j].block,
                        required as int,
                    ),
            },
        decreases list@.len() - i,
    {
        let v = list[i];
        if v.path == path {
            let total = tally_of(list, path, v.block);
            if total >= required {
                let better = match best {
                    Some((block, _)) => v.block < block,
                    None => true,
                };
                if better {
                    best = Some((v.block, total));
                }
            }
        }
        i += 1;
    }
    proof {
        match best {
            Some((block, total)) => {
                assert forall|c: BlockId| qualifies(list@, path, c, required as int) implies block <= c by {
                    let j = choose|j: int|
                        0 <= j < list@.len() && (#[trigger] list@[j]).path == path && list@[j].block == c;
                    assert(list@[j].path == path);
                }
            },
            None => {
                assert forall|c: BlockId| !qualifies(list@, path, c, required as int) by {
                    if qualifies(list@, path, c, required as int) {
                        let j = choose|j: int|
                            0 <= j < list@.len() && (#[trigger] list@[j]).path == path && list@[j].block == c;
                        assert(list@[j].path == path);
                    }
                }
            },
        }
    }
    best
}

/// The votes of `list` for `block` on `path`, as a set.
fn collect_votes_for(list: &Vec<Vote>, path: VotePath, block: BlockId) -> (set: SortedSet<Vote>)
    ensures
        set.wf(),
        set@ == votes_for(list@, path, block),
{
    let mut set: SortedSet<Vote> = SortedSet::new();
    let mut i: usize = 0;
    while i < list.len()
        invariant
            i <= list@.len(),
            set.wf(),
            set@ == votes_for(list@.subrange(0, i as int), path, block),
        decreases list@.len() - i,
    {
        let v = list[i];
        if v.path == path && v.block == block {
            set.insert(v);
        }
        proof {
            let before = list@.subrange(0, i as int);
            let after = list@.subrange(0, i + 1);
            assert(after =~= before.push(v));
            assert forall|w: Vote| after.contains(w) <==> (before.contains(w) || w == v) by {
                if before.contains(w) {
                    let j = choose|j: int| 0 <= j < before.len() && before[j] == w;
                    assert(after[j] == w);
                }
                if w == v {
                    assert(after[i as int] == w);
                }
                if after.contains(w) {
                    let j = choose|j: int| 0 <= j < after.len() && after[j] == w;
                    if j < i {
                        assert(before[j] == w);
                    }
                }
            }
            assert(set@ =~= votes_for(after, path, block));
        }
        i += 1;
    }
    assert(list@.subrange(0, i as int) =~= list@);
    set
}

/// The votes of `list`, as a set.
fn collect_all_votes(list: &Vec<Vote>) -> (set: SortedSet<Vote>)
    ensures
        set.wf(),
        set@ == list@.to_set(),
{
    let mut set: SortedSet<Vote> = SortedSet::new();
    let mut i: usize = 0;
    while i < list.len()
        invariant
            i <= list@.len(),
            set.wf(),
            set@ == list@.subrange(0, i as int).to_set(),
        decreases list@.len() - i,
    {
        let v = list[i];
        set.insert(v);
        proof {
            let before = list@.subrange(0, i as int);
            let after = list@.subrange(0, i + 1);
            assert(after =~= before.push(v));
            assert forall|w: Vote| after.contains(w) <==> (before.contains(w) || w == v) by {
                if before.contains(w) {
                    let j = choose|j: int| 0 <= j < before.len() && before[j] == w;
                    assert(after[j] == w);
                }
                if w == v {
                    assert(after[i as int] == w);
                }
                if after.contains(w) {
                    let j = choose|j: int| 0 <= j < after.len() && after[j] == w;
                    if j < i {
                        assert(before[j] == w);
                    }
                }
            }
            assert(set@ =~= after.to_set());
        }
        i += 1;
    }
    assert(list@.subrange(0, i as int) =~= list@);
    set
}

/// Whether `list` holds a vote for `block` on `path`.
fn has_voted(list: &Vec<Vote>, block: BlockId, path: VotePath) -> (b: bool)
    ensures
        b == voted(list@, block, path),
{
    let mut i: usize = 0;
    while i < list.len()
        invariant
            i <= list@.len(),
            forall|j: int| 0 <= j < i ==> !((#[trigger] list@[j]).block == block && list@[j].path == path),
        decreases list@.len() - i,
    {
        if list[i].block == block && list[i].path == path {
            return true;
        }
        i += 1;
    }
    false
}

/// Whether `list` holds a vote of `node` for `block` on `path`.
pub fn has_voted_by(list: &Vec<Vote>, node: NodeId, block: BlockId, path: VotePath) -> (b: bool)
    ensures
        b == voted_by(list@, node, block, path),
{
    let mut i: usize = 0;
    while i < list.len()
        invariant
            i <= list@.len(),
            forall|j: int|
                0 <= j < i ==> !((#[trigger] list@[j]).node == node && list@[j].block == block && list@[j].path
                    == path),
        decreases list@.len() - i,
    {
        if list[i].node == node && list[i].block == block && list[i].path == path {
            return true;
        }
        i += 1;
    }
    false
}

/// Whether the ledger holds a block for `slot`.
fn is_finalized(ledger: &Vec<FinalizedBlock>, slot: Slot) -> (b: bool)
    ensures
        b == finalized(ledger@, slot),
{
    let mut i: usize = 0;
    while i < ledger.len()
        invariant
            i <= ledger@.len(),
            forall|j: int| 0 <= j < i ==> (#[trigger] ledger@[j]).slot != slot,
        decreases ledger@.len() - i,
    {
        if ledger[i].slot == slot {
            return true;
        }
        i += 1;
    }
    false
}

impl AlpenglowState {
    /// The vote list of `node` for `slot`, where the state keeps one.
    pub fn votes_of(&self, node: NodeId, slot: Slot) -> (r: Option<&Vec<Vote>>)
        requires
            self.wf(),
        ensures
            match r {
                Some(list) => self.deep_view().has_vote_list(node, slot) && list@
                    == self.deep_view().votes[node][slot],
                None => !self.deep_view().has_vote_list(node, slot),
            },
    {
        match self.votes.get(&node) {
            Some(inner) => {
                match inner.get(&slot) {
                    Some(list) => {
                        proof {
                            lemma_vote_list_view(*list);
                        }
                        Some(list)
                    },
                    None => None,
                }
            },
            None => None,
        }
    }

    /// The timeout record of `node` for `slot`, where the state keeps one.
    pub fn timeout_info(&self, node: NodeId, slot: Slot) -> (r: Option<TimeoutInfo>)
        requires
            self.wf(),
        ensures
            r == self.deep_view().timeout_info(node, slot),
    {
        match self.timeouts.get(&node) {
            Some(inner) => {
                match inner.get(&slot) {
                    Some(info) => Some(*info),
                    None => None,
                }
            },
            None => None,
        }
    }

    /// Sets the timeout record of `node` for `slot`; says whether the state keeps one.
    pub fn set_timeout_info(&mut self, node: NodeId, slot: Slot, info: TimeoutInfo) -> (done: bool)
        requires
            old(self).wf(),
        ensures
            final(self).wf(),
            done == (old(self).deep_view().timeout_info(node, slot) is Some),
            final(self).deep_view() == if done {
                StateView {
                    timeouts: old(self).deep_view().timeouts.insert(
                        node,
                        old(self).deep_view().timeouts[node].insert(slot, info),
                    ),
                    ..old(self).deep_view()
                }
            } else {
                old(self).deep_view()
            },
    {
        let ghost before = *self;
        let mut done = false;
        match self.timeouts.get_mut(&node) {
            Some(inner) => {
                let ghost inner_before = *inner;
                match inner.get_mut(&slot) {
                    Some(entry) => {
                        *entry = info;
                        done = true;
                    },
                    None => {},
                }
                proof {
                    if done {
                        lemma_deep_insert(inner_before, *inner, slot, info);
                    }
                }
            },
            None => {},
        }
        proof {
            if done {
                lemma_deep_insert(before.timeouts, self.timeouts, node, self.timeouts@[node]);
                assert(self.deep_view() =~= StateView {
                    timeouts: before.deep_view().timeouts.insert(
                        node,
                        before.deep_view().timeouts[node].insert(slot, info),
                    ),
                    ..before.deep_view()
                });
            } else {
                assert(self.deep_view() =~= before.deep_view());
            }
        }
        done
    }

    /// Appends `vote` to the list of `owner` for the vote's slot, where the state keeps one.
    pub fn append_vote(&mut self, owner: NodeId, vote: Vote)
        requires
            old(self).wf(),
        ensures
            final(self).wf(),
            final(self).deep_view() == old(self).deep_view().append_vote(owner, vote),
    {
        let ghost before = *self;
        let ghost mut done = false;
        match self.votes.get_mut(&owner) {
            Some(inner) => {
                let ghost inner_before = *inner;
                match inner.get_mut(&vote.slot) {
                    Some(list) => {
                        let ghost list_before = *list;
                        list.push(vote);
                        proof {
                            done = true;
                            lemma_vote_list_view(list_before);
                            lemma_vote_list_view(*list);
                        }
                    },
                    None => {},
                }
                proof {
                    if done {
                        lemma_deep_insert(inner_before, *inner, vote.slot, inner@[vote.slot]);
                    }
                }
            },
            None => {},
        }
        proof {
            if done {
                lemma_deep_insert(before.votes, self.votes, owner, self.votes@[owner]);
                assert(self.deep_view() =~= before.deep_view().append_vote(owner, vote));
            } else {
                assert(self.deep_view() =~= before.deep_view());
            }
        }
    }

    /// Records `vote` in the list of its node and slot, where the state keeps one.
    pub fn add_vote_to_state(&mut self, vote: Vote)
        requires
            old(self).wf(),
        ensures
            final(self).wf(),
            final(self).deep_view() == old(self).deep_view().record_vote(vote),
    {
        self.append_vote(vote.node, vote);
    }

    /// Whether `node` is registered as honest.
    pub fn is_honest(&self, node: NodeId) -> (b: bool)
        requires
            self.status.wf(),
        ensures
            b == self.deep_view().is_honest(node),
    {
        match self.status.get(&node) {
            Some(st) => st.is_honest(),
            None => false,
        }
    }

    /// Whether `node` is registered as Byzantine.
    pub fn is_byzantine(&self, node: NodeId) -> (b: bool)
        requires
            self.status.wf(),
        ensures
            b == self.deep_view().is_byzantine(node),
    {
        match self.status.get(&node) {
            Some(st) => st.is_byzantine(),
            None => false,
        }
    }

    /// An honest node votes for `block` in `slot` on `path`.
    pub fn vote(&mut self, node: NodeId, slot: Slot, block: BlockId, path: VotePath)
        requires
            old(self).wf(),
        ensures
            final(self).wf(),
            final(self).deep_view() == old(self).deep_view().vote(node, slot, block, path),
    {
        if self.is_honest(node) {
            let fresh = match self.votes_of(node, slot) {
                Some(list) => !has_voted(list, block, path),
                None => false,
            };
            if fresh {
                let stake = self.stake_of(node);
                self.add_vote_to_state(Vote { node, slot, block, path, stake });
            }
        }
    }

    /// A Byzantine node acts in `slot` under `strategy`.
    pub fn byzantine_vote(&mut self, node: NodeId, strategy: &ByzantineStrategy, slot: Slot)
        requires
            old(self).wf(),
        ensures
            final(self).wf(),
            final(self).deep_view() == old(self).deep_view().byzantine_vote(node, strategy.deep_view(), slot),
    {
        if self.is_byzantine(node) {
            let count = match self.timeout_info(node, slot) {
                Some(info) => info.count,
                None => 0,
            };
            let stake = self.stake_of(node);
            let (delay, votes) = execute_byzantine_strategy(node, strategy, slot, stake, count);
            match self.global_time.checked_add(delay) {
                Some(now) => {
                    self.global_time = now;
                    let ghost start = self.deep_view();
                    assert(start =~= StateView { global_time: now, ..old(self).deep_view() });
                    let mut i: usize = 0;
                    while i < votes.len()
                        invariant
                            i <= votes@.len(),
                            self.wf(),
                            self.deep_view() == start.record_votes(votes@, i as int),
                        decreases votes@.len() - i,
                    {
                        self.add_vote_to_state(votes[i]);
                        i += 1;
                    }
                },
                None => {},
            }
        }
    }

    /// An honest node times out in `slot`.
    pub fn timeout(&mut self, node: NodeId, slot: Slot)
        requires
            old(self).wf(),
        ensures
            final(self).wf(),
            final(self).deep_view() == old(self).deep_view().timeout(node, slot),
    {
        match self.timeout_info(node, slot) {
            Some(info) => {
                if self.is_honest(node) && info.count < u32::MAX {
                    let now = self.global_time;
                    self.set_timeout_info(
                        node,
                        slot,
                        TimeoutInfo { count: info.count + 1, last_timeout: now, threshold: info.threshold },
                    );
                }
            },
            None => {},
        }
    }

    /// The clock moves by `delta`.
    pub fn advance_time(&mut self, delta: Timestamp)
        requires
            old(self).wf(),
        ensures
            final(self).wf(),
            final(self).deep_view() == old(self).deep_view().advance_time(delta),
    {
        match self.global_time.checked_add(delta) {
            Some(now) => {
                self.global_time = now;
                assert(self.deep_view() =~= StateView { global_time: now, ..old(self).deep_view() });
                if now % TICKS_PER_SLOT == 0 && self.current_slot < SLOT_HORIZON {
                    let slot: Slot = self.current_slot + 1;
                    let size = self.current_window.window_size;
                    let depth = self.current_window.finality_depth;
                    self.current_slot = slot;
                    assert(self.deep_view() =~= StateView {
                        current_slot: slot,
                        global_time: now,
                        ..old(self).deep_view()
                    });
                    self.rotate_leader(slot);
                    self.update_window(slot, size, depth);
                }
            },
            None => {},
        }
    }

    /// All recorded votes for `slot`, node after node.
    pub fn collect_slot_votes(&self, slot: Slot) -> (out: Vec<Vote>)
        requires
            self.wf(),
        ensures
            out@ == self.deep_view().slot_votes(slot),
    {
        let ghost votes = self.votes.deep_view();
        let ghost keys = self.votes.key_seq();
        proof {
            self.votes.lemma_deep_view();
            self.votes.lemma_entries();
        }
        let n = self.votes.len();
        let mut out: Vec<Vote> = Vec::new();
        let mut i: usize = 0;
        while i < n
            invariant
                i <= n,
                n == keys.len(),
                self.wf(),
                keys == self.votes.key_seq(),
                votes == self.votes.deep_view(),
                out@ == slot_votes_prefix(votes, slot, keys, i as int),
            decreases n - i,
        {
            let inner = self.votes.value_at(i);
            proof {
                self.votes.lemma_deep_view();
                self.votes.lemma_entries();
                assert(self.votes@.contains_key(keys[i as int]));
                assert(votes[keys[i as int]] == inner.deep_view());
            }
            let ghost base = out@;
            match inner.get(&slot) {
                Some(list) => {
                    proof {
                        lemma_vote_list_view(*list);
                    }
                    let mut j: usize = 0;
                    while j < list.len()
                        invariant
                            j <= list@.len(),
                            out@ == base + list@.subrange(0, j as int),
                        decreases list@.len() - j,
                    {
                        out.push(list[j]);
                        j += 1;
                        assert(out@ =~= base + list@.subrange(0, j as int));
                    }
                    assert(list@.subrange(0, j as int) =~= list@);
                },
                None => {
                    assert(out@ =~= base + Seq::<Vote>::empty());
                },
            }
            i += 1;
        }
        out
    }

    /// Tries to certify `slot` on `path`.
    pub fn certify(&mut self, slot: Slot, path: VotePath)
        requires
            old(self).wf(),
        ensures
            final(self).wf(),
            final(self).deep_view() == old(self).deep_view().certify(slot, path),
    {
        let list = self.collect_slot_votes(slot);
        let required = match path {
            VotePath::Fast => self.quorum_wide(FAST_QUORUM_PERCENT),
            VotePath::Slow => self.quorum_wide(SLOW_QUORUM_PERCENT),
        };
        match find_winner(&list, path, required) {
            Some((block, total)) => {
                proof {
                    lemma_winner_unique(list@, path, required as int, block);
                }
                if total <= u64::MAX as u128 {
                    let total_stake: u64 = total as u64;
                    let ghost before = *self;
                    let certificate = Certificate {
                        votes: collect_votes_for(&list, path, block),
                        slot,
                        block,
                        total_stake,
                        path,
                    };
                    let ghost cert = certificate;
                    self.certificates.insert(slot, certificate);
                    if !is_finalized(&self.ledger, slot) {
                        self.ledger.push(
                            FinalizedBlock {
                                slot,
                                block_id: block,
                                finalization_time: self.global_time,
                                total_stake,
                            },
                        );
                    }
                    proof {
                        lemma_deep_insert(before.certificates, self.certificates, slot, cert);
                        assert(self.deep_view() =~= before.deep_view().certify(slot, path));
                    }
                }
            },
            None => {},
        }
    }

    /// How many nodes of the registry have reached their timeout threshold in `slot`.
    pub fn count_timed_out(&self, slot: Slot) -> (c: usize)
        requires
            self.wf(),
        ensures
            c == self.deep_view().timed_out_count(slot, self.nodes@.len() as int),
    {
        let mut c: usize = 0;
        let mut i: usize = 0;
        while i < self.nodes.len()
            invariant
                i <= self.nodes@.len(),
                self.wf(),
                c <= i,
                c == self.deep_view().timed_out_count(slot, i as int),
            decreases self.nodes@.len() - i,
        {
            let hit = match self.timeout_info(self.nodes[i], slot) {
                Some(info) => info.count >= info.threshold,
                None => false,
            };
            if hit {
                c += 1;
            }
            i += 1;
        }
        c
    }

    /// Tries to skip `slot`.
    pub fn skip_cert(&mut self, slot: Slot)
        requires
            old(self).wf(),
        ensures
            final(self).wf(),
            final(self).deep_view() == old(self).deep_view().skip_cert(slot),
    {
        let timed_out = self.count_timed_out(slot);
        let needed: u128 = (SKIP_NODE_PERCENT as u128 * self.nodes.len() as u128) / 100;
        if timed_out as u128 >= needed {
            let list = self.collect_slot_votes(slot);
            let total = stake_of_votes(&list);
            let quorum = self.quorum_wide(SLOW_QUORUM_PERCENT);
            if total >= quorum && total <= u64::MAX as u128 {
                let ghost before = *self;
                let certificate = SkipCertificate {
                    slot,
                    timeout_votes: collect_all_votes(&list),
                    total_stake: total as u64,
                };
                let ghost cert = certificate;
                self.skip_certs.insert(slot, certificate);
                proof {
                    lemma_deep_insert(before.skip_certs, self.skip_certs, slot, cert);
                    assert(self.deep_view() =~= before.deep_view().skip_cert(slot));
                }
            }
        }
    }
}

} // verus!
