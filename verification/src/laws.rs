//! What holds of the transition function, proved on the model.

use vstd::prelude::*;
use crate::byzantine::{strategy_votes, StrategyView};
use crate::consensus::{has_winner, is_winner, voted, winner};
use crate::explore::offered;
use crate::messaging::{pending_ids, without_id};
use crate::network::{MessageContentView, PendingMessageView};
use crate::properties::{equivocates, single_block};
use crate::rotor::{available_chunks, mark, mark_chunks, mark_targets};
use crate::sorted_map::{is_listing, lemma_ascending_unique, lemma_listing_unique, ordered_keys};
use crate::state::{initial_state, stake_sum, total_of, StateView};
use crate::transition::{next, run, AlpenglowAction};
use crate::types::{BlockId, NodeId, Slot, StakeAmount, Vote, VotePath};

verus! {

/// Recording votes changes nothing but the vote lists.
pub proof fn lemma_record_votes_frame(s: StateView, votes: Seq<Vote>, n: int)
    ensures
        s.record_votes(votes, n) == (StateView { votes: s.record_votes(votes, n).votes, ..s }),
    decreases n,
{
    if n > 0 {
        lemma_record_votes_frame(s, votes, n - 1);
    }
}

/// What a state shares with the state it is compared with: the parts that few actions touch.
pub open spec fn same_settlement(s: StateView, t: StateView) -> bool {
    &&& t.finalization_times == s.finalization_times
    &&& t.certificates == s.certificates
    &&& t.skip_certs == s.skip_certs
    &&& t.current_slot == s.current_slot
}

/// The consensus actions touch neither finalization times nor, but for
/// `Certify`, `SkipCert` and `AdvanceTime`, certificates, skip certificates and the slot.
proof fn lemma_frame_consensus(s: StateView, action: AlpenglowAction)
    requires
        action is Vote || action is ByzantineVote || action is Certify || action is Timeout || action is SkipCert
            || action is AdvanceTime,
    ensures
        next(s, action).finalization_times == s.finalization_times,
        !(action is Certify) ==> next(s, action).certificates == s.certificates,
        !(action is SkipCert) ==> next(s, action).skip_certs == s.skip_certs,
        !(action is AdvanceTime) ==> next(s, action).current_slot == s.current_slot,
        !(action is AdvanceTime) ==> next(s, action).leader_rotation == s.leader_rotation,
        next(s, action).network_partition == s.network_partition,
        next(s, action).status == s.status,
        !(action is Vote || action is ByzantineVote) ==> next(s, action).votes == s.votes,
        next(s, action).message_queue == s.message_queue,
{
    match action {
        AlpenglowAction::ByzantineVote { node, strategy, slot } => {
            let count = s.timeout_count(node, slot);
            let votes = strategy_votes(strategy.deep_view(), node, slot, s.stake_of(node), count);
            let delay = crate::byzantine::strategy_delay(strategy.deep_view(), count);
            let moved = StateView { global_time: (s.global_time + delay) as u64, ..s };
            lemma_record_votes_frame(moved, votes, votes.len() as int);
        },
        _ => {},
    }
}

/// The actions on coalitions, strategies and the network touch none of the settled parts.
proof fn lemma_frame_network(s: StateView, action: AlpenglowAction)
    requires
        action is NetworkPartition || action is HealPartition || action is FormCoalition
            || action is CoordinateAttack || action is AdaptStrategy || action is TimingManipulation
            || action is SendMessage || action is DropMessage || action is InjectNetworkFailure
            || action is RecoverFromFailure || action is UpdateLatencyModel || action is AdjustBandwidth
            || action is SimulateCongestion,
    ensures
        same_settlement(s, next(s, action)),
        next(s, action).leader_rotation == s.leader_rotation,
        !(action is NetworkPartition || action is HealPartition) ==> next(s, action).network_partition
            == s.network_partition,
        !(action is AdaptStrategy) ==> next(s, action).status == s.status,
        next(s, action).votes == s.votes,
        !(action is SendMessage || action is DropMessage) ==> next(s, action).message_queue == s.message_queue,
{
}

/// The economic actions touch none of the settled parts.
proof fn lemma_frame_economy(s: StateView, action: AlpenglowAction)
    requires
        action is DistributeRewards || action is SlashValidator || action is WithdrawRewards
            || action is StakeDeposit || action is StakeWithdrawal || action is ReportSlashing
            || action is UpdateEconomicParameters,
    ensures
        same_settlement(s, next(s, action)),
        next(s, action).leader_rotation == s.leader_rotation,
        next(s, action).network_partition == s.network_partition,
        !(action is SlashValidator) ==> next(s, action).status == s.status,
        next(s, action).votes == s.votes,
        next(s, action).message_queue == s.message_queue,
{
}

/// The actions of Rotor and of leader rotation touch none of the settled parts but the slot.
proof fn lemma_frame_rotor(s: StateView, action: AlpenglowAction)
    requires
        action is PropagateErasureBlock || action is PropagateChunk || action is RequestMissingChunks
            || action is ReconstructBlock || action is AssignRelayNodes || action is ProposeBlock
            || action is RotateLeader || action is UpdateWindow,
    ensures
        next(s, action).finalization_times == s.finalization_times,
        next(s, action).certificates == s.certificates,
        next(s, action).skip_certs == s.skip_certs,
        !(action is ProposeBlock) ==> next(s, action).current_slot == s.current_slot,
        !(action is RotateLeader) ==> next(s, action).leader_rotation == s.leader_rotation,
        next(s, action).network_partition == s.network_partition,
        next(s, action).status == s.status,
        next(s, action).votes == s.votes,
        next(s, action).message_queue == s.message_queue,
{
}

/// Delivery touches none of the settled parts but certificates and skip certificates.
proof fn lemma_frame_delivery(s: StateView, action: AlpenglowAction)
    requires
        action is DeliverMessage,
    ensures
        next(s, action).finalization_times == s.finalization_times,
        next(s, action).current_slot == s.current_slot,
        next(s, action).leader_rotation == s.leader_rotation,
        next(s, action).network_partition == s.network_partition,
        next(s, action).status == s.status,
{
}

/// Which parts of a state an action can touch.
pub proof fn lemma_frame(s: StateView, action: AlpenglowAction)
    ensures
        next(s, action).finalization_times == s.finalization_times,
        !(action is Certify || action is DeliverMessage) ==> next(s, action).certificates == s.certificates,
        !(action is SkipCert || action is DeliverMessage) ==> next(s, action).skip_certs == s.skip_certs,
        !(action is AdvanceTime || action is ProposeBlock) ==> next(s, action).current_slot == s.current_slot,
        !(action is AdvanceTime || action is RotateLeader) ==> next(s, action).leader_rotation
            == s.leader_rotation,
        !(action is NetworkPartition || action is HealPartition) ==> next(s, action).network_partition
            == s.network_partition,
        !(action is AdaptStrategy || action is SlashValidator) ==> next(s, action).status == s.status,
        !(action is Vote || action is ByzantineVote || action is DeliverMessage) ==> next(s, action).votes
            == s.votes,
        !(action is SendMessage || action is DeliverMessage || action is DropMessage) ==> next(
            s,
            action,
        ).message_queue == s.message_queue,
{
    if action is Vote || action is ByzantineVote || action is Certify || action is Timeout || action is SkipCert
        || action is AdvanceTime {
        lemma_frame_consensus(s, action);
    } else if action is DeliverMessage {
        lemma_frame_delivery(s, action);
    } else if action is DistributeRewards || action is SlashValidator || action is WithdrawRewards
        || action is StakeDeposit || action is StakeWithdrawal || action is ReportSlashing
        || action is UpdateEconomicParameters {
        lemma_frame_economy(s, action);
    } else if action is PropagateErasureBlock || action is PropagateChunk || action is RequestMissingChunks
        || action is ReconstructBlock || action is AssignRelayNodes || action is ProposeBlock
        || action is RotateLeader || action is UpdateWindow {
        lemma_frame_rotor(s, action);
    } else {
        lemma_frame_network(s, action);
    }
}

/// Whether every certificate is kept under the slot that it certifies.
pub open spec fn certificates_keyed(s: StateView) -> bool {
    forall|slot: Slot| s.certificates.contains_key(slot) ==> (#[trigger] s.certificates[slot]).slot == slot
}

/// Safety holds of every state whose certificates are kept under their slots.
pub proof fn lemma_keyed_is_safe(s: StateView)
    requires
        certificates_keyed(s),
    ensures
        s.stake_weighted_safety(),
{
}

/// Safety holds in the beginning: there is no certificate.
pub proof fn safety_in_the_beginning(nodes: Seq<NodeId>, stakes: Map<NodeId, StakeAmount>)
    ensures
        certificates_keyed(initial_state(nodes, stakes)),
        initial_state(nodes, stakes).stake_weighted_safety(),
{
}

/// Every step keeps certificates under their slots, and with that safety:
/// no two certificates for one slot certify different blocks.
pub proof fn safety_is_kept(s: StateView, action: AlpenglowAction)
    requires
        certificates_keyed(s),
    ensures
        certificates_keyed(next(s, action)),
        next(s, action).stake_weighted_safety(),
{
    lemma_frame(s, action);
    lemma_keyed_is_safe(next(s, action));
}

/// Safety holds of every state that a run from an initial state reaches.
pub proof fn safety_of_runs(
    nodes: Seq<NodeId>,
    stakes: Map<NodeId, StakeAmount>,
    actions: Seq<AlpenglowAction>,
    n: int,
)
    ensures
        certificates_keyed(run(initial_state(nodes, stakes), actions, n)),
        run(initial_state(nodes, stakes), actions, n).stake_weighted_safety(),
    decreases n,
{
    if n > 0 {
        safety_of_runs(nodes, stakes, actions, n - 1);
        safety_is_kept(run(initial_state(nodes, stakes), actions, n - 1), actions[n - 1]);
    } else {
        safety_in_the_beginning(nodes, stakes);
    }
}

/// Whether `action` delivers a certificate of the slow path.
pub open spec fn delivers_slow_certificate(s: StateView, action: AlpenglowAction) -> bool {
    match action {
        AlpenglowAction::DeliverMessage { message_id } => {
            match pending_ids(s.message_queue.pending_messages).index_of_first(message_id) {
                Some(i) => match s.message_queue.pending_messages[i].content {
                    MessageContentView::Certificate(c) => c.path == VotePath::Slow,
                    _ => false,
                },
                None => false,
            }
        },
        _ => false,
    }
}

/// Whether `action` asks for a certificate of the slow path.
pub open spec fn certifies_slowly(action: AlpenglowAction) -> bool {
    match action {
        AlpenglowAction::Certify { slot, path } => path == VotePath::Slow,
        _ => false,
    }
}

/// Fast-path efficiency holds in the beginning: there is no certificate.
pub proof fn fast_path_in_the_beginning(nodes: Seq<NodeId>, stakes: Map<NodeId, StakeAmount>)
    ensures
        initial_state(nodes, stakes).fast_certificate_or_none(),
        initial_state(nodes, stakes).fast_path_efficiency(),
{
    assert(initial_state(nodes, stakes).certificates.dom() =~= Set::<Slot>::empty());
}

/// A step that neither certifies on the slow path nor delivers a
/// certificate of the slow path keeps fast-path efficiency: a state with no
/// certificate, or with one on the fast path, is followed by such a state.
pub proof fn fast_path_is_kept(s: StateView, action: AlpenglowAction)
    requires
        s.fast_certificate_or_none(),
        !certifies_slowly(action),
        !delivers_slow_certificate(s, action),
    ensures
        next(s, action).fast_certificate_or_none(),
        next(s, action).fast_path_efficiency(),
{
    lemma_frame(s, action);
    let t = next(s, action);
    match action {
        AlpenglowAction::Certify { slot, path } => {
            if t.certificates != s.certificates {
                assert(t.certificates.contains_key(slot));
                assert(t.certificates[slot].path == VotePath::Fast);
            }
        },
        AlpenglowAction::DeliverMessage { message_id } => {
            match pending_ids(s.message_queue.pending_messages).index_of_first(message_id) {
                Some(i) => {
                    let m = s.message_queue.pending_messages[i];
                    match m.content {
                        MessageContentView::Certificate(c) => {
                            if s.global_time >= m.send_time {
                                assert(t.certificates.contains_key(c.slot));
                                assert(t.certificates[c.slot].path == VotePath::Fast);
                            }
                        },
                        _ => {
                            assert(t.certificates == s.certificates);
                        },
                    }
                },
                None => {},
            }
        },
        _ => {},
    }
}

/// A settled slot stays settled.
pub proof fn lemma_settled_stays(s: StateView, action: AlpenglowAction, slot: Slot)
    requires
        s.settled(slot),
    ensures
        next(s, action).settled(slot),
{
    lemma_frame(s, action);
}

/// Progress holds in the beginning: no slot lies before the first.
pub proof fn progress_in_the_beginning(nodes: Seq<NodeId>, stakes: Map<NodeId, StakeAmount>)
    ensures
        initial_state(nodes, stakes).progress(),
{
}

/// A step keeps progress where every slot that it leaves behind is settled.
/// A step that does not begin a slot leaves none behind.
pub proof fn progress_is_kept(s: StateView, action: AlpenglowAction)
    requires
        s.progress(),
        forall|slot: Slot| s.current_slot <= slot < next(s, action).current_slot ==> #[trigger] s.settled(slot),
    ensures
        next(s, action).progress(),
{
    let t = next(s, action);
    assert forall|slot: Slot| 1 <= slot < t.current_slot implies #[trigger] t.settled(slot) by {
        assert(s.settled(slot));
        lemma_settled_stays(s, action, slot);
    }
}

/// Bounded finalization holds in the beginning: no finalization time is recorded.
pub proof fn bounded_finalization_in_the_beginning(nodes: Seq<NodeId>, stakes: Map<NodeId, StakeAmount>)
    ensures
        initial_state(nodes, stakes).bounded_finalization_time(),
{
}

/// Every step keeps bounded finalization: no action records a finalization time.
pub proof fn bounded_finalization_is_kept(s: StateView, action: AlpenglowAction)
    requires
        s.bounded_finalization_time(),
    ensures
        next(s, action).bounded_finalization_time(),
{
    lemma_frame(s, action);
    let t = next(s, action);
    assert forall|slot: Slot| #[trigger] t.finalization_times.contains_key(slot) implies t.finalized_in_time(
        slot,
    ) by {
        assert(s.finalization_times.contains_key(slot));
        assert(s.finalized_in_time(slot));
    }
}

/// Bounded finalization holds of every state that a run from an initial state reaches.
pub proof fn bounded_finalization_of_runs(
    nodes: Seq<NodeId>,
    stakes: Map<NodeId, StakeAmount>,
    actions: Seq<AlpenglowAction>,
    n: int,
)
    ensures
        run(initial_state(nodes, stakes), actions, n).bounded_finalization_time(),
    decreases n,
{
    if n > 0 {
        bounded_finalization_of_runs(nodes, stakes, actions, n - 1);
        bounded_finalization_is_kept(run(initial_state(nodes, stakes), actions, n - 1), actions[n - 1]);
    } else {
        bounded_finalization_in_the_beginning(nodes, stakes);
    }
}

/// Leader fairness holds in the beginning: the history has one entry.
pub proof fn leader_fairness_in_the_beginning(nodes: Seq<NodeId>, stakes: Map<NodeId, StakeAmount>)
    ensures
        initial_state(nodes, stakes).leader_rotation_fairness(),
{
}

/// A step keeps leader fairness where it leaves the history as it is, as
/// every action but `RotateLeader` and `AdvanceTime` does, or leaves it
/// shorter than fairness looks at.
pub proof fn leader_fairness_is_kept(s: StateView, action: AlpenglowAction)
    requires
        s.leader_rotation_fairness(),
        next(s, action).leader_rotation.leader_history == s.leader_rotation.leader_history || next(
            s,
            action,
        ).leader_rotation.leader_history.len() < crate::properties::FAIRNESS_HISTORY,
    ensures
        next(s, action).leader_rotation_fairness(),
        !(action is AdvanceTime || action is RotateLeader) ==> next(s, action).leader_rotation
            == s.leader_rotation,
{
    lemma_frame(s, action);
}

/// Healing undoes a partition: after a partition of a state without one
/// and its healing, the state is what it was.
pub proof fn heal_undoes_partition(s: StateView, nodes_a: Set<NodeId>, nodes_b: Set<NodeId>)
    ensures
        s.partition(nodes_a, nodes_b).heal_partition().network_partition is None,
        s.network_partition is None ==> s.partition(nodes_a, nodes_b).heal_partition() == s,
        s.partition(nodes_a, nodes_b).heal_partition() == s.heal_partition(),
{
}

/// Recovery undoes an injection: after a failure has been injected and the
/// failure at its index has been recovered from, the state is what it was.
pub proof fn recover_undoes_inject(s: StateView, failure: crate::network::NetworkFailureView)
    requires
        s.network_state.failure_injections.len() <= usize::MAX,
    ensures
        s.inject_failure(failure).recover_from_failure(s.network_state.failure_injections.len() as usize)
            == s,
{
    let injected = s.inject_failure(failure);
    let index = s.network_state.failure_injections.len() as usize;
    let t = injected.recover_from_failure(index);
    assert(t.network_state.failure_injections =~= s.network_state.failure_injections);
    assert(t =~= s);
}

/// Recovery removes exactly the failure at its index: the others stay, in their order.
pub proof fn recover_removes_one(s: StateView, index: usize)
    requires
        index < s.network_state.failure_injections.len(),
    ensures
        s.recover_from_failure(index).network_state.failure_injections.len()
            == s.network_state.failure_injections.len() - 1,
        forall|j: int|
            0 <= j < index ==> s.recover_from_failure(index).network_state.failure_injections[j]
                == s.network_state.failure_injections[j],
        forall|j: int|
            index <= j < s.network_state.failure_injections.len() - 1 ==> s.recover_from_failure(
                index,
            ).network_state.failure_injections[j] == s.network_state.failure_injections[j + 1],
{
}

/// An honest vote, cast twice, counts once.
pub proof fn vote_is_idempotent(s: StateView, node: NodeId, slot: Slot, block: BlockId, path: VotePath)
    ensures
        s.vote(node, slot, block, path).vote(node, slot, block, path) == s.vote(node, slot, block, path),
{
    let t = s.vote(node, slot, block, path);
    if t != s {
        let v = Vote { node, slot, block, path, stake: s.stake_of(node) };
        let list = t.votes[node][slot];
        assert(list == s.votes[node][slot].push(v));
        assert(list[list.len() - 1] == v);
        assert(voted(list, block, path));
    }
}

/// The step depends on the state and on what the action asks for, and on nothing else.
pub proof fn step_is_deterministic(s: StateView, a: AlpenglowAction, b: AlpenglowAction)
    requires
        a.same_as(b),
    ensures
        next(s, a) == next(s, b),
{
}

/// Two runs from one state on the same actions end in the same state.
pub proof fn replay_is_deterministic(s: StateView, a: Seq<AlpenglowAction>, b: Seq<AlpenglowAction>, n: int)
    requires
        0 <= n <= a.len(),
        n <= b.len(),
        forall|i: int| 0 <= i < n ==> (#[trigger] a[i]).same_as(b[i]),
    ensures
        run(s, a, n) == run(s, b, n),
    decreases n,
{
    if n > 0 {
        replay_is_deterministic(s, a, b, n - 1);
        step_is_deterministic(run(s, a, n - 1), a[n - 1], b[n - 1]);
    }
}

/// Whether every certificate that waits in the queue holds votes for one block only.
pub open spec fn pending_certificates_single(s: StateView) -> bool {
    forall|i: int|
        0 <= i < s.message_queue.pending_messages.len() ==> match (
        #[trigger] s.message_queue.pending_messages[i]).content {
            MessageContentView::Certificate(c) => single_block(c),
            _ => true,
        }
}

/// Whether `action` sends a certificate that holds votes for more than one block.
pub open spec fn sends_mixed_certificate(action: AlpenglowAction) -> bool {
    match action {
        AlpenglowAction::SendMessage { from, to, content, priority } => match content.deep_view() {
            MessageContentView::Certificate(c) => !single_block(c),
            _ => false,
        },
        _ => false,
    }
}

/// What is left of a queue after a drop was in the queue before.
pub proof fn lemma_without_id_keeps(pending: Seq<PendingMessageView>, id: u64, n: int)
    requires
        0 <= n <= pending.len(),
    ensures
        forall|j: int|
            0 <= j < without_id(pending, id, n).len() ==> exists|i: int|
                0 <= i < n && #[trigger] pending[i] == (#[trigger] without_id(pending, id, n)[j]),
    decreases n,
{
    if n > 0 {
        lemma_without_id_keeps(pending, id, n - 1);
        let prev = without_id(pending, id, n - 1);
        let cur = without_id(pending, id, n);
        assert forall|j: int| 0 <= j < cur.len() implies exists|i: int|
            0 <= i < n && #[trigger] pending[i] == (#[trigger] cur[j]) by {
            if j < prev.len() {
                let i = choose|i: int| 0 <= i < n - 1 && #[trigger] pending[i] == prev[j];
                assert(pending[i] == cur[j]);
            } else {
                assert(pending[n - 1] == cur[j]);
            }
        }
    }
}

/// Byzantine resilience holds in the beginning: there is no certificate.
pub proof fn resilience_in_the_beginning(nodes: Seq<NodeId>, stakes: Map<NodeId, StakeAmount>)
    ensures
        initial_state(nodes, stakes).certificates_single_block(),
        pending_certificates_single(initial_state(nodes, stakes)),
        initial_state(nodes, stakes).byzantine_resilience(),
{
}

/// A step other than the sending of a certificate with votes for several
/// blocks keeps Byzantine resilience: where every certificate, kept or
/// waiting in the queue, holds votes for one block only, that stays so.
pub proof fn resilience_is_kept(s: StateView, action: AlpenglowAction)
    requires
        s.certificates_single_block(),
        pending_certificates_single(s),
        !sends_mixed_certificate(action),
    ensures
        next(s, action).certificates_single_block(),
        pending_certificates_single(next(s, action)),
        next(s, action).byzantine_resilience(),
{
    lemma_frame(s, action);
    let t = next(s, action);
    let pending = s.message_queue.pending_messages;
    match action {
        AlpenglowAction::Certify { slot, path } => {
            if t.certificates != s.certificates {
                assert(single_block(t.certificates[slot]));
                assert forall|k: Slot| t.certificates.contains_key(k) implies single_block(
                    #[trigger] t.certificates[k],
                ) by {
                    if k != slot {
                        assert(s.certificates.contains_key(k));
                    }
                }
            }
        },
        AlpenglowAction::DeliverMessage { message_id } => {
            match pending_ids(pending).index_of_first(message_id) {
                Some(i) => {
                    pending_ids(pending).index_of_first_ensures(message_id);
                    let m = pending[i];
                    if s.global_time >= m.send_time {
                        assert(t.message_queue.pending_messages == pending.remove(i));
                        assert forall|j: int| 0 <= j < t.message_queue.pending_messages.len() implies match (
                        #[trigger] t.message_queue.pending_messages[j]).content {
                            MessageContentView::Certificate(c) => single_block(c),
                            _ => true,
                        } by {
                            if j < i {
                                assert(t.message_queue.pending_messages[j] == pending[j]);
                            } else {
                                assert(t.message_queue.pending_messages[j] == pending[j + 1]);
                            }
                        }
                        match m.content {
                            MessageContentView::Certificate(c) => {
                                assert forall|k: Slot| t.certificates.contains_key(k) implies single_block(
                                    #[trigger] t.certificates[k],
                                ) by {
                                    if k != c.slot {
                                        assert(s.certificates.contains_key(k));
                                    }
                                }
                            },
                            _ => {
                                assert(t.certificates == s.certificates);
                            },
                        }
                    }
                },
                None => {},
            }
        },
        AlpenglowAction::DropMessage { message_id, reason } => {
            lemma_without_id_keeps(pending, message_id, pending.len() as int);
            let left = t.message_queue.pending_messages;
            assert forall|j: int| 0 <= j < left.len() implies match (#[trigger] left[j]).content {
                MessageContentView::Certificate(c) => single_block(c),
                _ => true,
            } by {
                let i = choose|i: int| 0 <= i < pending.len() && #[trigger] pending[i] == left[j];
                assert(pending[i] == left[j]);
            }
        },
        AlpenglowAction::SendMessage { from, to, content, priority } => {
            if t != s {
                let sent = t.message_queue.pending_messages;
                assert(sent.len() == pending.len() + 1);
                assert forall|j: int| 0 <= j < sent.len() implies match (#[trigger] sent[j]).content {
                    MessageContentView::Certificate(c) => single_block(c),
                    _ => true,
                } by {
                    if j < pending.len() {
                        assert(sent[j] == pending[j]);
                    }
                }
            }
        },
        _ => {},
    }
}

/// Whether `list` holds a vote for the slot and path of `v` and for another block.
pub open spec fn conflicts_with(list: Seq<Vote>, v: Vote) -> bool {
    exists|i: int|
        0 <= i < list.len() && (#[trigger] list[i]).slot == v.slot && list[i].path == v.path && list[i].block
            != v.block
}

/// Whether `action` puts, into the list of an honest node, a vote for a
/// slot and path for which the list holds a vote for another block: by an
/// honest vote, or by the delivery of a vote.
pub open spec fn adds_conflict(s: StateView, action: AlpenglowAction) -> bool {
    match action {
        AlpenglowAction::Vote { node, slot, block, path } => {
            s.is_honest(node) && s.has_vote_list(node, slot) && !voted(s.votes[node][slot], block, path)
                && conflicts_with(s.votes[node][slot], Vote { node, slot, block, path, stake: s.stake_of(node) })
        },
        AlpenglowAction::DeliverMessage { message_id } => {
            match pending_ids(s.message_queue.pending_messages).index_of_first(message_id) {
                Some(i) => {
                    let m = s.message_queue.pending_messages[i];
                    match m.content {
                        MessageContentView::Vote(v) => s.global_time >= m.send_time && s.is_honest(m.to)
                            && s.has_vote_list(m.to, v.slot) && conflicts_with(s.votes[m.to][v.slot], v),
                        _ => false,
                    }
                },
                None => false,
            }
        },
        _ => false,
    }
}

/// A list with one vote more holds a conflict where it held one before, or the new vote brings one.
pub proof fn lemma_equivocates_push(list: Seq<Vote>, v: Vote)
    ensures
        equivocates(list.push(v)) <==> (equivocates(list) || conflicts_with(list, v)),
{
    let grown = list.push(v);
    if equivocates(list) {
        let (i, j) = choose|i: int, j: int|
            0 <= i < list.len() && 0 <= j < list.len() && (#[trigger] list[i]).slot == (#[trigger] list[j]).slot
                && list[i].path == list[j].path && list[i].block != list[j].block;
        assert(grown[i].slot == grown[j].slot && grown[i].path == grown[j].path && grown[i].block
            != grown[j].block);
    }
    if conflicts_with(list, v) {
        let i = choose|i: int|
            0 <= i < list.len() && (#[trigger] list[i]).slot == v.slot && list[i].path == v.path && list[i].block
                != v.block;
        let last = list.len() as int;
        assert(grown[i].slot == grown[last].slot && grown[i].path == grown[last].path && grown[i].block
            != grown[last].block);
    }
    if equivocates(grown) {
        let (i, j) = choose|i: int, j: int|
            0 <= i < grown.len() && 0 <= j < grown.len() && (#[trigger] grown[i]).slot == (
            #[trigger] grown[j]).slot && grown[i].path == grown[j].path && grown[i].block != grown[j].block;
        if i < list.len() && j < list.len() {
            assert(list[i].slot == list[j].slot && list[i].path == list[j].path && list[i].block
                != list[j].block);
        } else if i < list.len() {
            assert(list[i].slot == v.slot && list[i].path == v.path && list[i].block != v.block);
        } else if j < list.len() {
            assert(list[j].slot == v.slot && list[j].path == v.path && list[j].block != v.block);
        }
    }
}

/// Recording votes of one node leaves the lists of the other nodes as they are.
pub proof fn lemma_record_votes_of(s: StateView, votes: Seq<Vote>, n: int, node: NodeId)
    requires
        0 <= n <= votes.len(),
        forall|i: int| 0 <= i < votes.len() ==> (#[trigger] votes[i]).node == node,
    ensures
        forall|other: NodeId|
            other != node ==> (#[trigger] s.record_votes(votes, n).votes.contains_key(other))
                == s.votes.contains_key(other),
        forall|other: NodeId|
            other != node && s.votes.contains_key(other) ==> #[trigger] s.record_votes(votes, n).votes[other]
                == s.votes[other],
        s.record_votes(votes, n).status == s.status,
    decreases n,
{
    if n > 0 {
        lemma_record_votes_of(s, votes, n - 1, node);
        assert(votes[n - 1].node == node);
    }
}

/// Every vote that a strategy emits for a node is a vote of that node.
pub proof fn lemma_strategy_votes_of(
    strategy: StrategyView,
    node: NodeId,
    slot: Slot,
    stake: StakeAmount,
    count: u32,
)
    ensures
        forall|i: int|
            0 <= i < strategy_votes(strategy, node, slot, stake, count).len() ==> (#[trigger] strategy_votes(
                strategy,
                node,
                slot,
                stake,
                count,
            )[i]).node == node,
{
}

/// No honest node has equivocated in the beginning: nothing is voted.
pub proof fn no_equivocation_in_the_beginning(nodes: Seq<NodeId>, stakes: Map<NodeId, StakeAmount>)
    ensures
        initial_state(nodes, stakes).honest_no_equivocation(),
{
}

/// A step that adds no conflict to the list of an honest node keeps the
/// honest nodes free of equivocation.
pub proof fn no_equivocation_is_kept(s: StateView, action: AlpenglowAction)
    requires
        s.honest_no_equivocation(),
        !adds_conflict(s, action),
    ensures
        next(s, action).honest_no_equivocation(),
{
    lemma_frame(s, action);
    let t = next(s, action);
    match action {
        AlpenglowAction::Vote { node, slot, block, path } => {
            if t != s {
                let v = Vote { node, slot, block, path, stake: s.stake_of(node) };
                lemma_equivocates_push(s.votes[node][slot], v);
                assert forall|n: NodeId, k: Slot| t.is_honest(n) && #[trigger] t.has_vote_list(n, k) implies !equivocates(
                    t.votes[n][k],
                ) by {
                    assert(s.has_vote_list(n, k));
                }
            }
        },
        AlpenglowAction::ByzantineVote { node, strategy, slot } => {
            if t != s {
                let count = s.timeout_count(node, slot);
                let votes = strategy_votes(strategy.deep_view(), node, slot, s.stake_of(node), count);
                let delay = crate::byzantine::strategy_delay(strategy.deep_view(), count);
                let moved = StateView { global_time: (s.global_time + delay) as u64, ..s };
                lemma_strategy_votes_of(strategy.deep_view(), node, slot, s.stake_of(node), count);
                lemma_record_votes_of(moved, votes, votes.len() as int, node);
                assert forall|n: NodeId, k: Slot| t.is_honest(n) && #[trigger] t.has_vote_list(n, k) implies !equivocates(
                    t.votes[n][k],
                ) by {
                    assert(n != node);
                    assert(t.votes.contains_key(n));
                    assert(s.has_vote_list(n, k));
                }
            }
        },
        AlpenglowAction::DeliverMessage { message_id } => {
            match pending_ids(s.message_queue.pending_messages).index_of_first(message_id) {
                Some(i) => {
                    let m = s.message_queue.pending_messages[i];
                    if s.global_time >= m.send_time {
                        match m.content {
                            MessageContentView::Vote(v) => {
                                if s.has_vote_list(m.to, v.slot) {
                                    lemma_equivocates_push(s.votes[m.to][v.slot], v);
                                }
                                assert forall|n: NodeId, k: Slot|
                                    t.is_honest(n) && #[trigger] t.has_vote_list(n, k) implies !equivocates(
                                    t.votes[n][k],
                                ) by {
                                    assert(s.has_vote_list(n, k));
                                }
                            },
                            _ => {
                                assert(t.votes == s.votes);
                                assert forall|n: NodeId, k: Slot|
                                    t.is_honest(n) && #[trigger] t.has_vote_list(n, k) implies !equivocates(
                                    t.votes[n][k],
                                ) by {
                                    assert(s.has_vote_list(n, k));
                                }
                            },
                        }
                    }
                },
                None => {},
            }
        },
        AlpenglowAction::AdaptStrategy { node, new_strategy, reason } => {
            assert forall|n: NodeId, k: Slot| t.is_honest(n) && #[trigger] t.has_vote_list(n, k) implies !equivocates(
                t.votes[n][k],
            ) by {
                assert(s.is_honest(n));
                assert(s.has_vote_list(n, k));
            }
        },
        AlpenglowAction::SlashValidator { evidence } => {
            assert forall|n: NodeId, k: Slot| t.is_honest(n) && #[trigger] t.has_vote_list(n, k) implies !equivocates(
                t.votes[n][k],
            ) by {
                assert(s.is_honest(n));
                assert(s.has_vote_list(n, k));
            }
        },
        _ => {
            assert forall|n: NodeId, k: Slot| t.is_honest(n) && #[trigger] t.has_vote_list(n, k) implies !equivocates(
                t.votes[n][k],
            ) by {
                assert(s.has_vote_list(n, k));
            }
        },
    }
}

/// Whether an action is one of those that touch the books or the stakes.
pub open spec fn is_economic(action: AlpenglowAction) -> bool {
    action is DistributeRewards || action is SlashValidator || action is WithdrawRewards || action is StakeDeposit
        || action is StakeWithdrawal || action is ReportSlashing || action is UpdateEconomicParameters
}

/// Whether an action is one of those that touch what Rotor keeps.
pub open spec fn is_rotor(action: AlpenglowAction) -> bool {
    action is PropagateErasureBlock || action is PropagateChunk || action is ReconstructBlock
        || action is AssignRelayNodes
}

proof fn lemma_stores_consensus(s: StateView, action: AlpenglowAction)
    requires
        action is Vote || action is ByzantineVote || action is Certify || action is Timeout || action is SkipCert
            || action is AdvanceTime,
    ensures
        next(s, action).economic_state == s.economic_state,
        next(s, action).erasure_coded_blocks == s.erasure_coded_blocks,
        next(s, action).chunk_availability == s.chunk_availability,
{
    match action {
        AlpenglowAction::ByzantineVote { node, strategy, slot } => {
            let count = s.timeout_count(node, slot);
            let votes = strategy_votes(strategy.deep_view(), node, slot, s.stake_of(node), count);
            let delay = crate::byzantine::strategy_delay(strategy.deep_view(), count);
            let moved = StateView { global_time: (s.global_time + delay) as u64, ..s };
            lemma_record_votes_frame(moved, votes, votes.len() as int);
        },
        _ => {},
    }
}

proof fn lemma_stores_network(s: StateView, action: AlpenglowAction)
    requires
        action is NetworkPartition || action is HealPartition || action is FormCoalition
            || action is CoordinateAttack || action is AdaptStrategy || action is TimingManipulation
            || action is SendMessage || action is DropMessage || action is DeliverMessage
            || action is InjectNetworkFailure || action is RecoverFromFailure || action is UpdateLatencyModel
            || action is AdjustBandwidth || action is SimulateCongestion,
    ensures
        next(s, action).economic_state == s.economic_state,
        next(s, action).erasure_coded_blocks == s.erasure_coded_blocks,
        next(s, action).chunk_availability == s.chunk_availability,
{
}

proof fn lemma_stores_rest(s: StateView, action: AlpenglowAction)
    requires
        is_economic(action) || is_rotor(action) || action is RequestMissingChunks || action is ProposeBlock
            || action is RotateLeader || action is UpdateWindow,
    ensures
        !is_economic(action) ==> next(s, action).economic_state == s.economic_state,
        !(action is PropagateErasureBlock) ==> next(s, action).erasure_coded_blocks == s.erasure_coded_blocks,
        !is_rotor(action) ==> next(s, action).chunk_availability == s.chunk_availability,
{
}

/// Only the economic actions touch the books, and only the actions of Rotor what Rotor keeps.
pub proof fn lemma_frame_stores(s: StateView, action: AlpenglowAction)
    ensures
        !is_economic(action) ==> next(s, action).economic_state == s.economic_state,
        !(action is PropagateErasureBlock) ==> next(s, action).erasure_coded_blocks == s.erasure_coded_blocks,
        !is_rotor(action) ==> next(s, action).chunk_availability == s.chunk_availability,
{
    if action is Vote || action is ByzantineVote || action is Certify || action is Timeout || action is SkipCert
        || action is AdvanceTime {
        lemma_stores_consensus(s, action);
    } else if is_economic(action) || is_rotor(action) || action is RequestMissingChunks || action is ProposeBlock
        || action is RotateLeader || action is UpdateWindow {
        lemma_stores_rest(s, action);
    } else {
        lemma_stores_network(s, action);
    }
}

/// Whether `after` holds every chunk that `before` holds, and is finite.
pub open spec fn grown_from(
    before: Map<(BlockId, u32), Set<NodeId>>,
    after: Map<(BlockId, u32), Set<NodeId>>,
) -> bool {
    &&& after.dom().finite()
    &&& forall|k: (BlockId, u32)|
        before.contains_key(k) && before[k] != Set::<NodeId>::empty() ==> #[trigger] after.contains_key(k)
            && after[k] != Set::<NodeId>::empty()
}

/// A chunk that is held stays held when a holder is marked.
pub proof fn lemma_mark_grows(avail: Map<(BlockId, u32), Set<NodeId>>, key: (BlockId, u32), node: NodeId)
    requires
        avail.dom().finite(),
    ensures
        grown_from(avail, mark(avail, key, node)),
{
    let after = mark(avail, key, node);
    assert(after.dom() =~= avail.dom().insert(key));
    assert forall|k: (BlockId, u32)|
        avail.contains_key(k) && avail[k] != Set::<NodeId>::empty() implies #[trigger] after.contains_key(k)
        && after[k] != Set::<NodeId>::empty() by {
        if k == key {
            assert(after[k].contains(node));
        }
    }
}

pub proof fn lemma_mark_chunks_grows(
    avail: Map<(BlockId, u32), Set<NodeId>>,
    block_id: BlockId,
    ids: Seq<u32>,
    node: NodeId,
    n: int,
)
    requires
        avail.dom().finite(),
    ensures
        grown_from(avail, mark_chunks(avail, block_id, ids, node, n)),
    decreases n,
{
    if n > 0 {
        lemma_mark_chunks_grows(avail, block_id, ids, node, n - 1);
        let mid = mark_chunks(avail, block_id, ids, node, n - 1);
        lemma_mark_grows(mid, (block_id, ids[n - 1]), node);
        let after = mark_chunks(avail, block_id, ids, node, n);
        assert forall|k: (BlockId, u32)|
            avail.contains_key(k) && avail[k] != Set::<NodeId>::empty() implies #[trigger] after.contains_key(k)
            && after[k] != Set::<NodeId>::empty() by {
            assert(mid.contains_key(k));
        }
    }
}

pub proof fn lemma_mark_targets_grows(
    avail: Map<(BlockId, u32), Set<NodeId>>,
    key: (BlockId, u32),
    targets: Seq<NodeId>,
    n: int,
)
    requires
        avail.dom().finite(),
    ensures
        grown_from(avail, mark_targets(avail, key, targets, n)),
    decreases n,
{
    if n > 0 {
        lemma_mark_targets_grows(avail, key, targets, n - 1);
        let mid = mark_targets(avail, key, targets, n - 1);
        lemma_mark_grows(mid, key, targets[n - 1]);
        let after = mark_targets(avail, key, targets, n);
        assert forall|k: (BlockId, u32)|
            avail.contains_key(k) && avail[k] != Set::<NodeId>::empty() implies #[trigger] after.contains_key(k)
            && after[k] != Set::<NodeId>::empty() by {
            assert(mid.contains_key(k));
        }
    }
}

/// Of finitely many chunks, finitely many are held.
pub proof fn lemma_available_finite(avail: Map<(BlockId, u32), Set<NodeId>>, block_id: BlockId)
    requires
        avail.dom().finite(),
    ensures
        available_chunks(avail, block_id).finite(),
{
    let held = |k: (BlockId, u32)| k.0 == block_id && avail[k] != Set::<NodeId>::empty();
    let second = |k: (BlockId, u32)| k.1;
    let picked = avail.dom().filter(held);
    avail.dom().lemma_len_filter(held);
    picked.lemma_map_finite(second);
    let image = picked.map(second);
    assert forall|c: u32| image.contains(c) <==> available_chunks(avail, block_id).contains(c) by {
        if available_chunks(avail, block_id).contains(c) {
            assert(picked.contains((block_id, c)));
            assert(second((block_id, c)) == c);
        }
        if image.contains(c) {
            let k = choose|k: (BlockId, u32)| picked.contains(k) && second(k) == c;
            assert(k == (block_id, c));
        }
    }
    assert(image =~= available_chunks(avail, block_id));
}

/// Where more chunks are held, a block that could be put together still can.
pub proof fn lemma_available_grows(
    before: Map<(BlockId, u32), Set<NodeId>>,
    after: Map<(BlockId, u32), Set<NodeId>>,
    block_id: BlockId,
)
    requires
        grown_from(before, after),
    ensures
        available_chunks(before, block_id).len() <= available_chunks(after, block_id).len(),
{
    lemma_available_finite(after, block_id);
    assert forall|c: u32| available_chunks(before, block_id).contains(c) implies available_chunks(
        after,
        block_id,
    ).contains(c) by {
        assert(after.contains_key((block_id, c)));
    }
    vstd::set_lib::lemma_len_subset(available_chunks(before, block_id), available_chunks(after, block_id));
}

/// Rotor availability holds in the beginning: no block is known.
pub proof fn availability_in_the_beginning(nodes: Seq<NodeId>, stakes: Map<NodeId, StakeAmount>)
    ensures
        initial_state(nodes, stakes).erasure_block_availability(),
        initial_state(nodes, stakes).chunk_availability.dom().finite(),
{
    assert(initial_state(nodes, stakes).chunk_availability.dom() =~= Set::<(BlockId, u32)>::empty());
}

/// A step other than the propagation of a block keeps Rotor availability:
/// no other action makes a block known, and none takes a chunk away.
pub proof fn availability_is_kept(s: StateView, action: AlpenglowAction)
    requires
        s.erasure_block_availability(),
        s.chunk_availability.dom().finite(),
        !(action is PropagateErasureBlock),
    ensures
        next(s, action).erasure_block_availability(),
        next(s, action).chunk_availability.dom().finite(),
{
    lemma_frame_stores(s, action);
    let t = next(s, action);
    match action {
        AlpenglowAction::PropagateChunk { node, chunk, target_nodes } => {
            lemma_mark_targets_grows(
                s.chunk_availability,
                (chunk.block_id, chunk.chunk_id),
                target_nodes@,
                target_nodes@.len() as int,
            );
        },
        AlpenglowAction::ReconstructBlock { node, block_id } => {
            if s.can_reconstruct(block_id) {
                let ids = crate::rotor::chunk_ids(s.erasure_coded_blocks[block_id].chunks);
                lemma_mark_chunks_grows(s.chunk_availability, block_id, ids, node, ids.len() as int);
            }
        },
        _ => {},
    }
    if t.chunk_availability != s.chunk_availability {
        assert(grown_from(s.chunk_availability, t.chunk_availability));
        assert forall|block: BlockId| #[trigger] t.erasure_coded_blocks.contains_key(block) implies t.can_reconstruct(
            block,
        ) by {
            assert(s.erasure_coded_blocks.contains_key(block));
            assert(s.can_reconstruct(block));
            lemma_available_grows(s.chunk_availability, t.chunk_availability, block);
        }
    } else {
        assert forall|block: BlockId| #[trigger] t.erasure_coded_blocks.contains_key(block) implies t.can_reconstruct(
            block,
        ) by {
            assert(s.erasure_coded_blocks.contains_key(block));
            assert(s.can_reconstruct(block));
        }
    }
}

/// Whether the keys of `m` can be listed in ascending order, as those of every finite map can.
pub open spec fn has_listing(m: Map<NodeId, u64>) -> bool {
    is_listing(m, ordered_keys(m))
}

/// The sum over a prefix of a listing after one listed amount has changed.
pub proof fn lemma_stake_sum_update(m: Map<NodeId, u64>, keys: Seq<NodeId>, k: NodeId, v: u64, n: int)
    requires
        is_listing(m, keys),
        m.contains_key(k),
        0 <= n <= keys.len(),
    ensures
        stake_sum(m.insert(k, v), keys, n) == stake_sum(m, keys, n) + if keys.subrange(0, n).contains(k) {
            v - m[k]
        } else {
            0
        },
    decreases n,
{
    if n > 0 {
        lemma_stake_sum_update(m, keys, k, v, n - 1);
        crate::state::lemma_prefix_contains(keys, n - 1);
        let i = n - 1;
        assert(keys.subrange(0, i + 1) == keys.subrange(0, n));
        assert(keys.subrange(0, i + 1).contains(k) <==> (keys.subrange(0, i).contains(k) || k == keys[i]));
        if keys[n - 1] == k {
            if keys.subrange(0, n - 1).contains(k) {
                let prefix = keys.subrange(0, n - 1);
                let j = choose|j: int| 0 <= j < prefix.len() && prefix[j] == k;
                assert(keys[j] == k);
                lemma_ascending_unique(keys, j, n - 1);
            }
        }
    } else {
        assert(keys.subrange(0, 0) =~= Seq::<NodeId>::empty());
    }
}

/// The sum of a map after the amount of one of its keys has changed.
pub proof fn lemma_total_update(m: Map<NodeId, u64>, k: NodeId, v: u64)
    requires
        has_listing(m),
        m.contains_key(k),
    ensures
        has_listing(m.insert(k, v)),
        total_of(m.insert(k, v)) == total_of(m) - m[k] + v,
{
    let keys = ordered_keys(m);
    let after = m.insert(k, v);
    assert(is_listing(after, keys));
    lemma_listing_unique(after, ordered_keys(after), keys);
    lemma_stake_sum_update(m, keys, k, v, keys.len() as int);
    assert(keys.subrange(0, keys.len() as int) =~= keys);
}

/// What the books hold against what backs them: the balances and the pool, less what was slashed.
pub open spec fn book_value(s: StateView) -> int {
    total_of(s.economic_state.validator_balances) + s.economic_state.rewards_pool
        - s.economic_state.total_slashed
}

/// The books in the beginning: the balances are the stakes, the pool is full, nothing is slashed.
pub proof fn conservation_in_the_beginning(nodes: Seq<NodeId>, stakes: Map<NodeId, StakeAmount>)
    ensures
        book_value(initial_state(nodes, stakes)) == total_of(stakes) + initial_state(
            nodes,
            stakes,
        ).economic_state.rewards_pool,
{
}

/// Economic conservation: no step but a deposit and a distribution of
/// rewards raises what the books hold.
pub proof fn conservation_is_kept(s: StateView, action: AlpenglowAction)
    requires
        has_listing(s.economic_state.validator_balances),
        !(action is StakeDeposit),
        !(action is DistributeRewards),
    ensures
        has_listing(next(s, action).economic_state.validator_balances),
        book_value(next(s, action)) <= book_value(s),
{
    lemma_frame_stores(s, action);
    let t = next(s, action);
    let balances = s.economic_state.validator_balances;
    match action {
        AlpenglowAction::SlashValidator { evidence } => {
            if s.slashing_outcome(evidence.deep_view()) is Ok {
                let balance = s.balance_of(evidence.violator);
                let amount = crate::treasury::slash_amount(balance, evidence.severity);
                assert(0 <= amount <= balance) by (nonlinear_arith)
                    requires
                        amount == (balance * crate::treasury::slash_percent(evidence.severity)) / 100,
                        0 <= balance,
                        0 <= crate::treasury::slash_percent(evidence.severity) <= 100,
                ;
                lemma_total_update(balances, evidence.violator, (balance - amount) as u64);
            }
        },
        AlpenglowAction::WithdrawRewards { node, amount } => {
            if t != s {
                lemma_total_update(balances, node, (s.balance_of(node) - amount) as u64);
            }
        },
        AlpenglowAction::StakeWithdrawal { node, amount } => {
            if s.can_withdraw(node, amount) {
                lemma_total_update(balances, node, (s.balance_of(node) - amount) as u64);
            }
        },
        _ => {},
    }
}

/// Economic conservation along a run: without deposits and distributions
/// of rewards, the books never hold more than the stakes and the pool of
/// the beginning.
pub proof fn conservation_of_runs(
    nodes: Seq<NodeId>,
    stakes: Map<NodeId, StakeAmount>,
    actions: Seq<AlpenglowAction>,
    n: int,
)
    requires
        has_listing(stakes),
        0 <= n <= actions.len(),
        forall|i: int|
            0 <= i < n ==> !((#[trigger] actions[i]) is StakeDeposit) && !(actions[i] is DistributeRewards),
    ensures
        has_listing(run(initial_state(nodes, stakes), actions, n).economic_state.validator_balances),
        book_value(run(initial_state(nodes, stakes), actions, n)) <= total_of(stakes) + initial_state(
            nodes,
            stakes,
        ).economic_state.rewards_pool,
    decreases n,
{
    if n > 0 {
        conservation_of_runs(nodes, stakes, actions, n - 1);
        conservation_is_kept(run(initial_state(nodes, stakes), actions, n - 1), actions[n - 1]);
    } else {
        conservation_in_the_beginning(nodes, stakes);
    }
}

proof fn lemma_records_consensus(s: StateView, action: AlpenglowAction)
    requires
        action is Vote || action is ByzantineVote || action is SkipCert || action is AdvanceTime,
    ensures
        next(s, action).ledger == s.ledger,
        next(s, action).timeouts == s.timeouts,
{
    match action {
        AlpenglowAction::ByzantineVote { node, strategy, slot } => {
            let count = s.timeout_count(node, slot);
            let votes = strategy_votes(strategy.deep_view(), node, slot, s.stake_of(node), count);
            let delay = crate::byzantine::strategy_delay(strategy.deep_view(), count);
            let moved = StateView { global_time: (s.global_time + delay) as u64, ..s };
            lemma_record_votes_frame(moved, votes, votes.len() as int);
        },
        _ => {},
    }
}

proof fn lemma_records_network(s: StateView, action: AlpenglowAction)
    requires
        action is NetworkPartition || action is HealPartition || action is FormCoalition
            || action is CoordinateAttack || action is AdaptStrategy || action is TimingManipulation
            || action is SendMessage || action is DropMessage || action is DeliverMessage
            || action is InjectNetworkFailure || action is RecoverFromFailure || action is UpdateLatencyModel
            || action is AdjustBandwidth || action is SimulateCongestion,
    ensures
        next(s, action).ledger == s.ledger,
        next(s, action).timeouts == s.timeouts,
{
}

proof fn lemma_records_rest(s: StateView, action: AlpenglowAction)
    requires
        is_economic(action) || is_rotor(action) || action is RequestMissingChunks || action is ProposeBlock
            || action is RotateLeader || action is UpdateWindow || action is Certify || action is Timeout,
    ensures
        !(action is Certify) ==> next(s, action).ledger == s.ledger,
        !(action is Timeout) ==> next(s, action).timeouts == s.timeouts,
{
}

/// Only `Certify` touches the ledger, and only `Timeout` the timeout records.
pub proof fn lemma_frame_records(s: StateView, action: AlpenglowAction)
    ensures
        !(action is Certify) ==> next(s, action).ledger == s.ledger,
        !(action is Timeout) ==> next(s, action).timeouts == s.timeouts,
{
    if action is Vote || action is ByzantineVote || action is SkipCert || action is AdvanceTime {
        lemma_records_consensus(s, action);
    } else if is_economic(action) || is_rotor(action) || action is RequestMissingChunks || action is ProposeBlock
        || action is RotateLeader || action is UpdateWindow || action is Certify || action is Timeout {
        lemma_records_rest(s, action);
    } else {
        lemma_records_network(s, action);
    }
}

/// Whether the ledger holds at most one block for each slot.
pub open spec fn one_block_per_slot(s: StateView) -> bool {
    forall|i: int, j: int|
        0 <= i < j < s.ledger.len() ==> (#[trigger] s.ledger[i]).slot != (#[trigger] s.ledger[j]).slot
}

/// The ledger never holds two blocks for one slot: not in the beginning, and after no step.
pub proof fn ledger_keeps_one_block_per_slot(s: StateView, action: AlpenglowAction)
    requires
        one_block_per_slot(s),
    ensures
        one_block_per_slot(next(s, action)),
        forall|nodes: Seq<NodeId>, stakes: Map<NodeId, StakeAmount>| #[trigger]
            one_block_per_slot(initial_state(nodes, stakes)),
{
    lemma_frame_records(s, action);
    let t = next(s, action);
    match action {
        AlpenglowAction::Certify { slot, path } => {
            if t.ledger != s.ledger {
                assert forall|i: int, j: int| 0 <= i < j < t.ledger.len() implies (#[trigger] t.ledger[i]).slot != (
                #[trigger] t.ledger[j]).slot by {
                    if j == s.ledger.len() {
                        assert(t.ledger[i] == s.ledger[i]);
                        assert(s.ledger[i].slot != slot);
                    } else {
                        assert(t.ledger[i] == s.ledger[i]);
                        assert(t.ledger[j] == s.ledger[j]);
                    }
                }
            }
        },
        _ => {},
    }
}

/// What certifying installs: a certificate for the slot and the path,
/// with votes for its block only, whose stake meets the quorum of the path;
/// and the ledger grows by at most the block certified.
pub proof fn certify_meets_the_quorum(s: StateView, slot: Slot, path: VotePath)
    requires
        s.certify(slot, path) != s,
    ensures
        s.certify(slot, path).certificates.contains_key(slot),
        s.certify(slot, path).certificates[slot].slot == slot,
        s.certify(slot, path).certificates[slot].path == path,
        s.certify(slot, path).certificates[slot].total_stake >= s.required_stake(path),
        single_block(s.certify(slot, path).certificates[slot]),
        forall|v: Vote|
            s.certify(slot, path).certificates[slot].votes.contains(v) ==> s.slot_votes(slot).contains(v)
                && v.path == path,
{
    let list = s.slot_votes(slot);
    let required = s.required_stake(path);
    assert(has_winner(list, path, required));
    let b = choose|b: BlockId| crate::consensus::qualifies(list, path, b, required);
    // some block qualifies, so the smallest one that does is well defined
    lemma_least_qualifier(list, path, required, b);
    assert(is_winner(list, path, required, winner(list, path, required)));
}

/// Where a block qualifies, there is a block with the smallest id that does.
pub proof fn lemma_least_qualifier(list: Seq<Vote>, path: VotePath, required: int, block: BlockId)
    requires
        crate::consensus::qualifies(list, path, block, required),
    ensures
        exists|b: BlockId| is_winner(list, path, required, b),
    decreases block,
{
    if forall|c: BlockId| crate::consensus::qualifies(list, path, c, required) ==> block <= c {
        assert(is_winner(list, path, required, block));
    } else {
        let c = choose|c: BlockId| crate::consensus::qualifies(list, path, c, required) && c < block;
        lemma_least_qualifier(list, path, required, c);
    }
}

/// The floor of a product of amounts that are not negative is not negative.
pub proof fn lemma_scaled_nonnegative(x: int, micros: int)
    requires
        x >= 0,
        micros >= 0,
    ensures
        crate::fraction::scaled(x, micros) >= 0,
{
    assert(x * micros >= 0) by (nonlinear_arith)
        requires
            x >= 0,
            micros >= 0,
    ;
}

/// No spike makes a latency negative.
pub proof fn lemma_spiked_nonnegative(
    failures: Seq<crate::network::NetworkFailureView>,
    n: int,
    latency: int,
    now: u64,
)
    requires
        latency >= 0,
    ensures
        crate::network::spiked_latency(failures, n, latency, now) >= 0,
    decreases n,
{
    if n > 0 && n <= failures.len() {
        lemma_spiked_nonnegative(failures, n - 1, latency, now);
        let before = crate::network::spiked_latency(failures, n - 1, latency, now);
        match failures[n - 1].failure_type {
            crate::network::FailureTypeView::LatencySpike { multiplier } => {
                lemma_scaled_nonnegative(before, multiplier.micros as int);
            },
            _ => {},
        }
    }
}

/// A message takes no less than no time.
pub proof fn lemma_transit_nonnegative(s: StateView, from: NodeId, to: NodeId)
    ensures
        s.link_latency(from, to) >= 0,
        s.transit_time(from, to) >= 0,
{
    let utilization = crate::network::link_utilization(s.network_state.congestion_state, from, to);
    let base = crate::network::base_latency(s.network_state.latency_model, utilization, from, to, s.global_time);
    match s.network_state.latency_model {
        crate::network::LatencyModel::Realistic { base_latency_ms, distance_factor, congestion_multiplier } => {
            lemma_scaled_nonnegative(congestion_multiplier as int, utilization.micros as int);
            assert(crate::network::id_distance(from, to) * distance_factor >= 0) by (nonlinear_arith)
                requires
                    crate::network::id_distance(from, to) >= 0,
                    distance_factor >= 0,
            ;
        },
        _ => {},
    }
    assert(base >= 0);
    lemma_spiked_nonnegative(
        s.network_state.failure_injections,
        s.network_state.failure_injections.len() as int,
        base,
        s.global_time,
    );
    lemma_scaled_nonnegative(s.link_latency(from, to), utilization.micros as int);
}

/// Whether every pending message has an id below the counter and is due no earlier than it was sent.
pub open spec fn queue_is_sound(s: StateView) -> bool {
    forall|i: int|
        0 <= i < s.message_queue.pending_messages.len() ==> (#[trigger] s.message_queue.pending_messages[i]).id
            < s.message_queue.message_counter && s.message_queue.pending_messages[i].scheduled_delivery_time
            >= s.message_queue.pending_messages[i].send_time
}

/// The queue stays sound: ids are given out in order, and no message is due before it was sent.
pub proof fn queue_stays_sound(s: StateView, action: AlpenglowAction)
    requires
        queue_is_sound(s),
    ensures
        queue_is_sound(next(s, action)),
        next(s, action).message_queue.message_counter >= s.message_queue.message_counter,
        forall|nodes: Seq<NodeId>, stakes: Map<NodeId, StakeAmount>| #[trigger]
            queue_is_sound(initial_state(nodes, stakes)),
{
    lemma_frame(s, action);
    let t = next(s, action);
    let pending = s.message_queue.pending_messages;
    match action {
        AlpenglowAction::SendMessage { from, to, content, priority } => {
            if t != s {
                lemma_transit_nonnegative(s, from, to);
                let sent = t.message_queue.pending_messages;
                assert forall|i: int| 0 <= i < sent.len() implies (#[trigger] sent[i]).id
                    < t.message_queue.message_counter && sent[i].scheduled_delivery_time >= sent[i].send_time by {
                    if i < pending.len() {
                        assert(sent[i] == pending[i]);
                    }
                }
            }
        },
        AlpenglowAction::DeliverMessage { message_id } => {
            match pending_ids(pending).index_of_first(message_id) {
                Some(k) => {
                    pending_ids(pending).index_of_first_ensures(message_id);
                    if s.global_time >= pending[k].send_time {
                        let left = t.message_queue.pending_messages;
                        assert(left == pending.remove(k));
                        assert forall|i: int| 0 <= i < left.len() implies (#[trigger] left[i]).id
                            < t.message_queue.message_counter && left[i].scheduled_delivery_time
                            >= left[i].send_time by {
                            if i < k {
                                assert(left[i] == pending[i]);
                            } else {
                                assert(left[i] == pending[i + 1]);
                            }
                        }
                    }
                },
                None => {},
            }
        },
        AlpenglowAction::DropMessage { message_id, reason } => {
            lemma_without_id_keeps(pending, message_id, pending.len() as int);
            let left = t.message_queue.pending_messages;
            assert forall|i: int| 0 <= i < left.len() implies (#[trigger] left[i]).id
                < t.message_queue.message_counter && left[i].scheduled_delivery_time >= left[i].send_time by {
                let k = choose|k: int| 0 <= k < pending.len() && #[trigger] pending[k] == left[i];
                assert(pending[k] == left[i]);
            }
        },
        _ => {},
    }
}

/// No step takes a timeout back: the timeout count of a node in a slot never falls.
pub proof fn timeouts_never_fall(s: StateView, action: AlpenglowAction, node: NodeId, slot: Slot)
    ensures
        next(s, action).timeout_count(node, slot) >= s.timeout_count(node, slot),
{
    lemma_frame_records(s, action);
}

proof fn lemma_clock_consensus(s: StateView, action: AlpenglowAction)
    requires
        action is Vote || action is ByzantineVote || action is Certify || action is Timeout || action is SkipCert
            || action is AdvanceTime,
    ensures
        next(s, action).global_time >= s.global_time,
        !(action is AdvanceTime || action is ByzantineVote) ==> next(s, action).global_time == s.global_time,
{
    match action {
        AlpenglowAction::ByzantineVote { node, strategy, slot } => {
            let count = s.timeout_count(node, slot);
            let votes = strategy_votes(strategy.deep_view(), node, slot, s.stake_of(node), count);
            let delay = crate::byzantine::strategy_delay(strategy.deep_view(), count);
            let moved = StateView { global_time: (s.global_time + delay) as u64, ..s };
            lemma_record_votes_frame(moved, votes, votes.len() as int);
        },
        _ => {},
    }
}

proof fn lemma_clock_network(s: StateView, action: AlpenglowAction)
    requires
        action is NetworkPartition || action is HealPartition || action is FormCoalition
            || action is CoordinateAttack || action is AdaptStrategy || action is TimingManipulation
            || action is SendMessage || action is DropMessage || action is DeliverMessage
            || action is InjectNetworkFailure || action is RecoverFromFailure || action is UpdateLatencyModel
            || action is AdjustBandwidth || action is SimulateCongestion,
    ensures
        next(s, action).global_time == s.global_time,
{
}

proof fn lemma_clock_rest(s: StateView, action: AlpenglowAction)
    requires
        is_economic(action) || is_rotor(action) || action is RequestMissingChunks || action is ProposeBlock
            || action is RotateLeader || action is UpdateWindow,
    ensures
        next(s, action).global_time == s.global_time,
{
}

/// The clock never runs backwards, and only `AdvanceTime` and the timing
/// attack of a Byzantine node move it.
pub proof fn clock_never_falls(s: StateView, action: AlpenglowAction)
    ensures
        next(s, action).global_time >= s.global_time,
        !(action is AdvanceTime || action is ByzantineVote) ==> next(s, action).global_time == s.global_time,
{
    if action is Vote || action is ByzantineVote || action is Certify || action is Timeout || action is SkipCert
        || action is AdvanceTime {
        lemma_clock_consensus(s, action);
    } else if is_economic(action) || is_rotor(action) || action is RequestMissingChunks || action is ProposeBlock
        || action is RotateLeader || action is UpdateWindow {
        lemma_clock_rest(s, action);
    } else {
        lemma_clock_network(s, action);
    }
}

/// Whether each of the first `n` of `actions` is offered in the state that
/// it acts on, in a run from `s`: whether the run is one that an
/// exploration of the model takes.
pub open spec fn explored(s: StateView, actions: Seq<AlpenglowAction>, n: int) -> bool {
    forall|i: int| 0 <= i < n ==> offered(run(s, actions, i), #[trigger] actions[i])
}

/// Byzantine resilience holds of every state that an exploration reaches
/// from an initial state: no offered action sends a certificate.
pub proof fn resilience_of_explored_runs(
    nodes: Seq<NodeId>,
    stakes: Map<NodeId, StakeAmount>,
    actions: Seq<AlpenglowAction>,
    n: int,
)
    requires
        0 <= n <= actions.len(),
        explored(initial_state(nodes, stakes), actions, n),
    ensures
        run(initial_state(nodes, stakes), actions, n).certificates_single_block(),
        pending_certificates_single(run(initial_state(nodes, stakes), actions, n)),
        run(initial_state(nodes, stakes), actions, n).byzantine_resilience(),
    decreases n,
{
    if n > 0 {
        resilience_of_explored_runs(nodes, stakes, actions, n - 1);
        assert(offered(run(initial_state(nodes, stakes), actions, n - 1), actions[n - 1]));
        resilience_is_kept(run(initial_state(nodes, stakes), actions, n - 1), actions[n - 1]);
    } else {
        resilience_in_the_beginning(nodes, stakes);
    }
}

/// Rotor availability holds of every state that an exploration reaches
/// from an initial state: no offered action makes a block known.
pub proof fn availability_of_explored_runs(
    nodes: Seq<NodeId>,
    stakes: Map<NodeId, StakeAmount>,
    actions: Seq<AlpenglowAction>,
    n: int,
)
    requires
        0 <= n <= actions.len(),
        explored(initial_state(nodes, stakes), actions, n),
    ensures
        run(initial_state(nodes, stakes), actions, n).erasure_block_availability(),
        run(initial_state(nodes, stakes), actions, n).chunk_availability.dom().finite(),
    decreases n,
{
    if n > 0 {
        availability_of_explored_runs(nodes, stakes, actions, n - 1);
        assert(offered(run(initial_state(nodes, stakes), actions, n - 1), actions[n - 1]));
        availability_is_kept(run(initial_state(nodes, stakes), actions, n - 1), actions[n - 1]);
    } else {
        availability_in_the_beginning(nodes, stakes);
    }
}

/// Economic conservation holds of every state that an exploration reaches
/// from an initial state: the books never hold more than the stakes and
/// the pool of the beginning, as no offered action deposits or distributes.
pub proof fn conservation_of_explored_runs(
    nodes: Seq<NodeId>,
    stakes: Map<NodeId, StakeAmount>,
    actions: Seq<AlpenglowAction>,
    n: int,
)
    requires
        has_listing(stakes),
        0 <= n <= actions.len(),
        explored(initial_state(nodes, stakes), actions, n),
    ensures
        book_value(run(initial_state(nodes, stakes), actions, n)) <= total_of(stakes) + initial_state(
            nodes,
            stakes,
        ).economic_state.rewards_pool,
{
    assert forall|i: int| 0 <= i < n implies !((#[trigger] actions[i]) is StakeDeposit) && !(actions[i]
        is DistributeRewards) by {
        assert(offered(run(initial_state(nodes, stakes), actions, i), actions[i]));
    }
    conservation_of_runs(nodes, stakes, actions, n);
}

} // verus!
