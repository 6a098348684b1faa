//! The actions that the model offers in a state to whoever explores it.
//!
//! `offered` says which actions those are. `AlpenglowModel::actions` lists
//! them: every action it lists is offered, and every offered action is
//! listed.

use vstd::prelude::*;
use vstd::string::StringExecFns;
use crate::byzantine::{
    ByzantineStrategy, CoalitionAttackType, CoalitionAttackView, NodeStatus, NodeStatusView, StrategyView,
};
use crate::fraction::Fraction;
use crate::network::{
    FailureType, FailureTypeView, LatencyModel, MessageContent, MessageContentView, MessagePriority,
    NetworkFailure, NetworkFailureView,
};
use crate::sorted_set::SortedSet;
use crate::state::{AlpenglowState, StateView, SLOT_HORIZON};
use crate::transition::{AlpenglowAction, AlpenglowModel};
use crate::types::{NodeId, Slot, Vote, VotePath};

verus! {

/// The ticks between two offers of congestion.
pub const CONGESTION_PERIOD: u64 = 20;

/// The ticks between two offers of a new latency model.
pub const LATENCY_UPDATE_PERIOD: u64 = 50;

/// The time after which failures are offered.
pub const FAILURE_ONSET: u64 = 10;

/// The largest coalition that is offered.
pub const MAX_OFFERED_COALITION: usize = 4;

/// Whether `slot` is the current slot or the next, within the horizon.
pub open spec fn votable(s: StateView, slot: Slot) -> bool {
    s.current_slot <= slot <= s.current_slot + 1 && slot <= SLOT_HORIZON
}

/// Whether `slot` has begun.
pub open spec fn begun(s: StateView, slot: Slot) -> bool {
    1 <= slot <= s.current_slot
}

/// The Byzantine ones among the first `n` nodes of the registry, in its order.
pub open spec fn byzantine_nodes(s: StateView, n: int) -> Seq<NodeId>
    decreases n,
{
    if n <= 0 {
        Seq::empty()
    } else if s.is_byzantine(s.nodes[n - 1]) {
        byzantine_nodes(s, n - 1).push(s.nodes[n - 1])
    } else {
        byzantine_nodes(s, n - 1)
    }
}

/// The links from the node at `from` to the first `n` nodes of `nodes`
/// that are congested together: those between two nodes whose ids add up
/// to a multiple of three.
pub open spec fn links_from(nodes: Seq<NodeId>, from: int, n: int) -> Seq<(NodeId, NodeId)>
    decreases n,
{
    if n <= 0 {
        Seq::empty()
    } else if nodes[from] != nodes[n - 1] && (nodes[from] + nodes[n - 1]) % 3 == 0 {
        links_from(nodes, from, n - 1).push((nodes[from], nodes[n - 1]))
    } else {
        links_from(nodes, from, n - 1)
    }
}

/// The links from the first `m` nodes of `nodes` that are congested together.
pub open spec fn congestion_links(nodes: Seq<NodeId>, m: int) -> Seq<(NodeId, NodeId)>
    decreases m,
{
    if m <= 0 {
        Seq::empty()
    } else {
        congestion_links(nodes, m - 1) + links_from(nodes, m - 1, nodes.len() as int)
    }
}

/// The packet loss that is offered in `s`.
pub open spec fn offered_loss(s: StateView) -> NetworkFailureView {
    NetworkFailureView {
        failure_type: FailureTypeView::PacketLoss { loss_rate: Fraction { micros: 100_000 } },
        start_time: s.global_time,
        duration: 20,
        affected_nodes: s.nodes.subrange(0, (s.nodes.len() / 2) as int),
        severity: Fraction { micros: 300_000 },
    }
}

/// The latency spike that is offered in `s`.
pub open spec fn offered_spike(s: StateView) -> NetworkFailureView {
    NetworkFailureView {
        failure_type: FailureTypeView::LatencySpike { multiplier: Fraction { micros: 3_000_000 } },
        start_time: s.global_time,
        duration: 15,
        affected_nodes: s.nodes,
        severity: Fraction { micros: 500_000 },
    }
}

/// Whether the model offers `action` in the state `s`.
///
/// - The clock may always move by one tick.
/// - An honest node of the registry may vote for block 0 or 1 in a
///   votable slot, and time out in a slot that has begun.
/// - A Byzantine node of the registry may act by its strategy in a votable
///   slot. The first two, three or four of them may form a coalition that
///   splits its votes or targets slots. One that equivocates or withholds
///   may take up a sharper strategy.
/// - Any slot that has begun may be certified on either path, or skipped.
/// - Four nodes or more may be partitioned down the middle of the
///   registry while there is no partition; a partition may be healed.
/// - An active coalition may coordinate an attack on a votable slot.
/// - A message that is due may be delivered. A node of the registry that
///   has not crashed may send another a heartbeat, or one of its votes.
/// - After `FAILURE_ONSET`, while no failure is injected, packet loss and
///   a latency spike may be injected.
/// - Every `CONGESTION_PERIOD` ticks the links between nodes whose ids add
///   up to a multiple of three may be congested, where there are any, and
///   every `LATENCY_UPDATE_PERIOD` ticks the latency model may be changed.
pub open spec fn offered(s: StateView, action: AlpenglowAction) -> bool {
    match action {
        AlpenglowAction::AdvanceTime { delta } => delta == 1,
        AlpenglowAction::Vote { node, slot, block, path } => s.nodes.contains(node) && s.is_honest(node)
            && votable(s, slot) && block < 2,
        AlpenglowAction::ByzantineVote { node, strategy, slot } => s.nodes.contains(node) && s.status.contains_key(
            node,
        ) && s.status[node] == NodeStatusView::Byzantine(strategy.deep_view()) && votable(s, slot),
        AlpenglowAction::Certify { slot, path } => begun(s, slot),
        AlpenglowAction::Timeout { node, slot } => s.nodes.contains(node) && s.is_honest(node) && begun(
            s,
            slot,
        ),
        AlpenglowAction::SkipCert { slot } => begun(s, slot),
        AlpenglowAction::NetworkPartition { nodes_a, nodes_b } => {
            let mid = s.nodes.len() / 2;
            s.network_partition is None && s.nodes.len() >= 4 && nodes_a@ == s.nodes.subrange(
                0,
                mid as int,
            ).to_set() && nodes_b@ == s.nodes.subrange(mid as int, s.nodes.len() as int).to_set()
        },
        AlpenglowAction::HealPartition => s.network_partition is Some,
        AlpenglowAction::FormCoalition { members, strategy } => {
            let all = byzantine_nodes(s, s.nodes.len() as int);
            2 <= members@.len() <= MAX_OFFERED_COALITION && members@.len() <= all.len() && members@
                == all.subrange(0, members@.len() as int) && (strategy.deep_view()
                == (CoalitionAttackView::SplitVote { target_blocks: seq![0u32, 1u32, 2u32] })
                || strategy.deep_view() == (CoalitionAttackView::StrategicTargeting {
                high_priority_slots: seq![1u32, 3u32, 5u32],
                disruption_threshold: Fraction { micros: 500_000 },
            }))
        },
        AlpenglowAction::CoordinateAttack { coalition_index, target_slot } => s.coalition_state.contains_key(
            coalition_index,
        ) && s.coalition_state[coalition_index].active && votable(s, target_slot),
        AlpenglowAction::AdaptStrategy { node, new_strategy, reason } => s.nodes.contains(node)
            && s.status.contains_key(node) && ((s.status[node] == NodeStatusView::Byzantine(
            StrategyView::Equivocation,
        ) && new_strategy.deep_view() == (StrategyView::SelectiveEquivocation {
            min_stake_threshold: 100,
            target_slots: seq![2u32, 4u32],
        }) && reason@ == "Escalating attack"@) || (s.status[node] == NodeStatusView::Byzantine(
            StrategyView::WithholdVotes,
        ) && new_strategy.deep_view() == (StrategyView::TimingAttack {
            delay_votes: true,
            max_delay: 500,
            target_path: Some(VotePath::Fast),
        }) && reason@ == "Switching to timing attack"@)),
        AlpenglowAction::DeliverMessage { message_id } => exists|i: int|
            0 <= i < s.message_queue.pending_messages.len() && (
            #[trigger] s.message_queue.pending_messages[i]).id == message_id
                && s.message_queue.pending_messages[i].scheduled_delivery_time <= s.global_time,
        AlpenglowAction::SendMessage { from, to, content, priority } => from != to && s.nodes.contains(from)
            && s.nodes.contains(to) && (s.is_honest(from) || s.is_byzantine(from)) && match content.deep_view() {
            MessageContentView::Heartbeat { sequence } => sequence == s.global_time && priority
                == MessagePriority::Normal,
            MessageContentView::Vote(v) => priority == MessagePriority::Critical && exists|slot: Slot|
                #[trigger] s.has_vote_list(from, slot) && s.votes[from][slot].contains(v),
            _ => false,
        },
        AlpenglowAction::InjectNetworkFailure { failure } => s.network_state.failure_injections.len() == 0
            && s.global_time > FAILURE_ONSET && (failure.deep_view() == offered_loss(s) || failure.deep_view()
            == offered_spike(s)),
        AlpenglowAction::SimulateCongestion { links, intensity } => s.global_time % CONGESTION_PERIOD == 0
            && intensity == (Fraction { micros: 900_000 }) && links@.len() > 0 && links@ == congestion_links(
            s.nodes,
            s.nodes.len() as int,
        ),
        AlpenglowAction::UpdateLatencyModel { new_model } => s.global_time % LATENCY_UPDATE_PERIOD == 0
            && new_model == (LatencyModel::Normal { mean_ms: 100, std_dev_ms: 25 }),
        _ => false,
    }
}

/// Whether `actions` holds, from `from` on, an action that asks for the same step as `action`.
pub open spec fn lists(actions: Seq<AlpenglowAction>, from: int, action: AlpenglowAction) -> bool {
    exists|i: int| from <= i < actions.len() && (#[trigger] actions[i]).same_as(action)
}

/// Whether `after` is `before` with actions appended.
pub open spec fn appended(before: Seq<AlpenglowAction>, after: Seq<AlpenglowAction>) -> bool {
    after.len() >= before.len() && after.subrange(0, before.len() as int) == before
}

/// Whether every action of `actions` from `from` on is offered in `s`.
pub open spec fn all_offered(s: StateView, actions: Seq<AlpenglowAction>, from: int) -> bool {
    forall|i: int| from <= i < actions.len() ==> offered(s, #[trigger] actions[i])
}

/// What a list holds it still holds when more is appended.
pub proof fn lemma_still_listed(
    before: Seq<AlpenglowAction>,
    after: Seq<AlpenglowAction>,
    from: int,
    action: AlpenglowAction,
)
    requires
        appended(before, after),
        0 <= from,
        lists(before, from, action),
    ensures
        lists(after, from, action),
{
    let i = choose|i: int| from <= i < before.len() && (#[trigger] before[i]).same_as(action);
    assert(after.subrange(0, before.len() as int)[i] == after[i]);
    assert(after[i].same_as(action));
}

/// Appending twice is appending.
pub proof fn lemma_appended_twice(
    first: Seq<AlpenglowAction>,
    second: Seq<AlpenglowAction>,
    third: Seq<AlpenglowAction>,
)
    requires
        appended(first, second),
        appended(second, third),
    ensures
        appended(first, third),
{
    assert forall|i: int| 0 <= i < first.len() implies third[i] == first[i] by {
        assert(second.subrange(0, first.len() as int)[i] == second[i]);
        assert(third.subrange(0, second.len() as int)[i] == third[i]);
    }
    assert(third.subrange(0, first.len() as int) =~= first);
}

/// Every action asks for the same step as itself.
pub proof fn lemma_same_as_itself(action: AlpenglowAction)
    ensures
        action.same_as(action),
{
}

/// Pushes `action`, which is offered.
fn offer(
    actions: &mut Vec<AlpenglowAction>,
    action: AlpenglowAction,
    Ghost(s): Ghost<StateView>,
    Ghost(from): Ghost<int>,
)
    requires
        0 <= from <= old(actions)@.len(),
        all_offered(s, old(actions)@, from),
        offered(s, action),
    ensures
        final(actions)@ == old(actions)@.push(action),
        appended(old(actions)@, final(actions)@),
        all_offered(s, final(actions)@, from),
        lists(final(actions)@, from, action),
{
    let ghost before = actions@;
    actions.push(action);
    proof {
        assert(actions@.subrange(0, before.len() as int) =~= before);
        lemma_same_as_itself(action);
        assert(actions@[before.len() as int].same_as(action));
    }
}

/// An action that asks for the same step as a listed one is listed.
pub proof fn lemma_lists_same(actions: Seq<AlpenglowAction>, from: int, pushed: AlpenglowAction, a: AlpenglowAction)
    requires
        lists(actions, from, pushed),
        pushed.same_as(a),
    ensures
        lists(actions, from, a),
{
    let i = choose|i: int| from <= i < actions.len() && (#[trigger] actions[i]).same_as(pushed);
    lemma_same_as_chain(actions[i], pushed, a);
}

/// Asking for the same step carries over.
pub proof fn lemma_same_as_chain(a: AlpenglowAction, b: AlpenglowAction, c: AlpenglowAction)
    requires
        a.same_as(b),
        b.same_as(c),
    ensures
        a.same_as(c),
{
}

/// Whether `action` certifies one of the slots below `bound` that have begun.
pub open spec fn certifies_below(s: StateView, action: AlpenglowAction, bound: int) -> bool {
    match action {
        AlpenglowAction::Certify { slot, path } => begun(s, slot) && slot < bound,
        _ => false,
    }
}

/// Offers to certify every slot that has begun, on either path.
fn offer_certifications(state: &AlpenglowState, actions: &mut Vec<AlpenglowAction>, Ghost(from): Ghost<int>)
    requires
        0 <= from <= old(actions)@.len(),
        all_offered(state.deep_view(), old(actions)@, from),
    ensures
        appended(old(actions)@, final(actions)@),
        all_offered(state.deep_view(), final(actions)@, from),
        forall|a: AlpenglowAction|
            a is Certify && offered(state.deep_view(), a) ==> #[trigger] lists(final(actions)@, from, a),
{
    let ghost s = state.deep_view();
    let ghost given = actions@;
    let mut slot: u64 = 1;
    assert(actions@.subrange(0, given.len() as int) =~= given);
    while slot <= state.current_slot as u64
        invariant
            1 <= slot <= state.current_slot + 1,
            s == state.deep_view(),
            0 <= from <= given.len(),
            appended(given, actions@),
            all_offered(s, actions@, from),
            forall|a: AlpenglowAction| certifies_below(s, a, slot as int) ==> #[trigger] lists(actions@, from, a),
        decreases state.current_slot + 1 - slot,
    {
        let ghost before = actions@;
        let fast = AlpenglowAction::Certify { slot: slot as u32, path: VotePath::Fast };
        let slow = AlpenglowAction::Certify { slot: slot as u32, path: VotePath::Slow };
        offer(actions, fast, Ghost(s), Ghost(from));
        let ghost middle = actions@;
        offer(actions, slow, Ghost(s), Ghost(from));
        proof {
            lemma_appended_twice(before, middle, actions@);
            lemma_appended_twice(given, before, actions@);
            lemma_still_listed(middle, actions@, from, fast);
            assert forall|a: AlpenglowAction| certifies_below(s, a, slot + 1) implies #[trigger] lists(
                actions@,
                from,
                a,
            ) by {
                if certifies_below(s, a, slot as int) {
                    lemma_still_listed(before, actions@, from, a);
                } else {
                    match a {
                        AlpenglowAction::Certify { slot: sl, path } => {
                            if path == VotePath::Fast {
                                lemma_lists_same(actions@, from, fast, a);
                            } else {
                                lemma_lists_same(actions@, from, slow, a);
                            }
                        },
                        _ => {},
                    }
                }
            }
        }
        slot += 1;
    }
}

/// Whether `action` skips one of the slots below `bound` that have begun.
pub open spec fn skips_below(s: StateView, action: AlpenglowAction, bound: int) -> bool {
    match action {
        AlpenglowAction::SkipCert { slot } => begun(s, slot) && slot < bound,
        _ => false,
    }
}

/// Offers to skip every slot that has begun.
fn offer_skips(state: &AlpenglowState, actions: &mut Vec<AlpenglowAction>, Ghost(from): Ghost<int>)
    requires
        0 <= from <= old(actions)@.len(),
        all_offered(state.deep_view(), old(actions)@, from),
    ensures
        appended(old(actions)@, final(actions)@),
        all_offered(state.deep_view(), final(actions)@, from),
        forall|a: AlpenglowAction|
            a is SkipCert && offered(state.deep_view(), a) ==> #[trigger] lists(final(actions)@, from, a),
{
    let ghost s = state.deep_view();
    let ghost given = actions@;
    let mut slot: u64 = 1;
    assert(actions@.subrange(0, given.len() as int) =~= given);
    while slot <= state.current_slot as u64
        invariant
            1 <= slot <= state.current_slot + 1,
            s == state.deep_view(),
            0 <= from <= given.len(),
            appended(given, actions@),
            all_offered(s, actions@, from),
            forall|a: AlpenglowAction| skips_below(s, a, slot as int) ==> #[trigger] lists(actions@, from, a),
        decreases state.current_slot + 1 - slot,
    {
        let ghost before = actions@;
        let skip = AlpenglowAction::SkipCert { slot: slot as u32 };
        offer(actions, skip, Ghost(s), Ghost(from));
        proof {
            lemma_appended_twice(given, before, actions@);
            assert forall|a: AlpenglowAction| skips_below(s, a, slot + 1) implies #[trigger] lists(
                actions@,
                from,
                a,
            ) by {
                if skips_below(s, a, slot as int) {
                    lemma_still_listed(before, actions@, from, a);
                } else {
                    lemma_lists_same(actions@, from, skip, a);
                }
            }
        }
        slot += 1;
    }
}

/// The last votable slot of `s`; the slot before the current one where no slot is votable.
pub open spec fn last_votable_of(s: StateView) -> int {
    if s.current_slot < SLOT_HORIZON {
        s.current_slot + 1
    } else {
        SLOT_HORIZON as int
    }
}

/// The last votable slot of a state whose current slot is `current`.
fn last_votable(current: Slot) -> (last: u64)
    ensures
        last == if current < SLOT_HORIZON {
            current + 1
        } else {
            SLOT_HORIZON as int
        },
{
    if current < SLOT_HORIZON {
        current as u64 + 1
    } else {
        SLOT_HORIZON as u64
    }
}

/// Whether `action` is a vote of `node` in a votable slot below `bound`.
pub open spec fn votes_below(s: StateView, action: AlpenglowAction, node: NodeId, bound: int) -> bool {
    match action {
        AlpenglowAction::Vote { node: n, slot, block, path } => n == node && votable(s, slot) && block < 2 && slot
            < bound,
        _ => false,
    }
}

/// Offers the votes of the honest node `node`.
fn offer_node_votes(state: &AlpenglowState, node: NodeId, actions: &mut Vec<AlpenglowAction>, Ghost(from): Ghost<int>)
    requires
        0 <= from <= old(actions)@.len(),
        all_offered(state.deep_view(), old(actions)@, from),
        state.deep_view().nodes.contains(node),
        state.deep_view().is_honest(node),
    ensures
        appended(old(actions)@, final(actions)@),
        all_offered(state.deep_view(), final(actions)@, from),
        forall|a: AlpenglowAction|
            votes_below(state.deep_view(), a, node, u32::MAX + 1) ==> #[trigger] lists(final(actions)@, from, a),
{
    let ghost s = state.deep_view();
    let ghost given = actions@;
    let last = last_votable(state.current_slot);
    let mut slot: u64 = state.current_slot as u64;
    assert(actions@.subrange(0, given.len() as int) =~= given);
    while slot <= last
        invariant
            state.current_slot <= slot,
            slot <= last + 1 || slot == state.current_slot,
            last == last_votable_of(s),
            s == state.deep_view(),
            s.nodes.contains(node),
            s.is_honest(node),
            0 <= from <= given.len(),
            appended(given, actions@),
            all_offered(s, actions@, from),
            forall|a: AlpenglowAction| votes_below(s, a, node, slot as int) ==> #[trigger] lists(actions@, from, a),
        decreases last + 1 - slot,
    {
        let ghost before = actions@;
        let v0 = AlpenglowAction::Vote { node, slot: slot as u32, block: 0, path: VotePath::Fast };
        let v1 = AlpenglowAction::Vote { node, slot: slot as u32, block: 0, path: VotePath::Slow };
        let v2 = AlpenglowAction::Vote { node, slot: slot as u32, block: 1, path: VotePath::Fast };
        let v3 = AlpenglowAction::Vote { node, slot: slot as u32, block: 1, path: VotePath::Slow };
        offer(actions, v0, Ghost(s), Ghost(from));
        let ghost a0 = actions@;
        offer(actions, v1, Ghost(s), Ghost(from));
        let ghost a1 = actions@;
        offer(actions, v2, Ghost(s), Ghost(from));
        let ghost a2 = actions@;
        offer(actions, v3, Ghost(s), Ghost(from));
        proof {
            lemma_appended_twice(a1, a2, actions@);
            lemma_appended_twice(a0, a1, actions@);
            lemma_appended_twice(before, a0, actions@);
            lemma_appended_twice(given, before, actions@);
            lemma_still_listed(a0, actions@, from, v0);
            lemma_still_listed(a1, actions@, from, v1);
            lemma_still_listed(a2, actions@, from, v2);
            assert forall|a: AlpenglowAction| votes_below(s, a, node, slot + 1) implies #[trigger] lists(
                actions@,
                from,
                a,
            ) by {
                if votes_below(s, a, node, slot as int) {
                    lemma_still_listed(before, actions@, from, a);
                } else {
                    match a {
                        AlpenglowAction::Vote { node: n, slot: sl, block, path } => {
                            if block == 0 && path == VotePath::Fast {
                                lemma_lists_same(actions@, from, v0, a);
                            } else if block == 0 {
                                lemma_lists_same(actions@, from, v1, a);
                            } else if path == VotePath::Fast {
                                lemma_lists_same(actions@, from, v2, a);
                            } else {
                                lemma_lists_same(actions@, from, v3, a);
                            }
                        },
                        _ => {},
                    }
                }
            }
        }
        slot += 1;
    }
}

/// Whether `action` is an act of the Byzantine node `node` in a votable slot below `bound`.
pub open spec fn acts_below(s: StateView, action: AlpenglowAction, node: NodeId, bound: int) -> bool {
    match action {
        AlpenglowAction::ByzantineVote { node: n, strategy, slot } => n == node && offered(s, action) && slot
            < bound,
        _ => false,
    }
}

/// Offers the acts of the Byzantine node `node`, whose strategy is `strategy`.
fn offer_node_acts(
    state: &AlpenglowState,
    node: NodeId,
    strategy: &ByzantineStrategy,
    actions: &mut Vec<AlpenglowAction>,
    Ghost(from): Ghost<int>,
)
    requires
        0 <= from <= old(actions)@.len(),
        all_offered(state.deep_view(), old(actions)@, from),
        state.deep_view().nodes.contains(node),
        state.deep_view().status.contains_key(node),
        state.deep_view().status[node] == NodeStatusView::Byzantine(strategy.deep_view()),
    ensures
        appended(old(actions)@, final(actions)@),
        all_offered(state.deep_view(), final(actions)@, from),
        forall|a: AlpenglowAction|
            acts_below(state.deep_view(), a, node, u32::MAX + 1) ==> #[trigger] lists(final(actions)@, from, a),
{
    let ghost s = state.deep_view();
    let ghost given = actions@;
    let last = last_votable(state.current_slot);
    let mut slot: u64 = state.current_slot as u64;
    assert(actions@.subrange(0, given.len() as int) =~= given);
    while slot <= last
        invariant
            state.current_slot <= slot,
            slot <= last + 1 || slot == state.current_slot,
            last == last_votable_of(s),
            s == state.deep_view(),
            s.nodes.contains(node),
            s.status.contains_key(node),
            s.status[node] == NodeStatusView::Byzantine(strategy.deep_view()),
            0 <= from <= given.len(),
            appended(given, actions@),
            all_offered(s, actions@, from),
            forall|a: AlpenglowAction| acts_below(s, a, node, slot as int) ==> #[trigger] lists(actions@, from, a),
        decreases last + 1 - slot,
    {
        let ghost before = actions@;
        let act = AlpenglowAction::ByzantineVote { node, strategy: strategy.clone(), slot: slot as u32 };
        offer(actions, act, Ghost(s), Ghost(from));
        proof {
            lemma_appended_twice(given, before, actions@);
            assert forall|a: AlpenglowAction| acts_below(s, a, node, slot + 1) implies #[trigger] lists(
                actions@,
                from,
                a,
            ) by {
                if acts_below(s, a, node, slot as int) {
                    lemma_still_listed(before, actions@, from, a);
                } else {
                    lemma_lists_same(actions@, from, act, a);
                }
            }
        }
        slot += 1;
    }
}

/// The node that a vote, an act of a Byzantine node, a timeout or a change of strategy is of.
pub open spec fn node_of(action: AlpenglowAction) -> NodeId {
    match action {
        AlpenglowAction::Vote { node, .. } => node,
        AlpenglowAction::ByzantineVote { node, .. } => node,
        AlpenglowAction::Timeout { node, .. } => node,
        AlpenglowAction::AdaptStrategy { node, .. } => node,
        _ => 0,
    }
}

/// Whether `x` is among the first `n` of `list`.
pub open spec fn among_first(list: Seq<NodeId>, n: int, x: NodeId) -> bool {
    exists|j: int| 0 <= j < n && j < list.len() && #[trigger] list[j] == x
}

/// The Byzantine nodes of the registry are nodes of the registry, and
/// Byzantine; and every Byzantine node of the registry is among them.
pub proof fn lemma_byzantine_nodes(s: StateView, n: int)
    requires
        0 <= n <= s.nodes.len(),
    ensures
        forall|i: int|
            0 <= i < byzantine_nodes(s, n).len() ==> s.is_byzantine(#[trigger] byzantine_nodes(s, n)[i])
                && among_first(s.nodes, n, byzantine_nodes(s, n)[i]),
        forall|x: NodeId|
            among_first(s.nodes, n, x) && s.is_byzantine(x) ==> #[trigger] byzantine_nodes(s, n).contains(x),
    decreases n,
{
    if n > 0 {
        lemma_byzantine_nodes(s, n - 1);
        let before = byzantine_nodes(s, n - 1);
        let now = byzantine_nodes(s, n);
        assert forall|i: int| 0 <= i < now.len() implies s.is_byzantine(#[trigger] now[i]) && among_first(
            s.nodes,
            n,
            now[i],
        ) by {
            if i < before.len() {
                assert(now[i] == before[i]);
                let j = choose|j: int| 0 <= j < n - 1 && j < s.nodes.len() && #[trigger] s.nodes[j] == before[i];
                assert(s.nodes[j] == now[i]);
            } else {
                assert(s.nodes[n - 1] == now[i]);
            }
        }
        assert forall|x: NodeId| among_first(s.nodes, n, x) && s.is_byzantine(x) implies #[trigger] now.contains(
            x,
        ) by {
            let j = choose|j: int| 0 <= j < n && j < s.nodes.len() && #[trigger] s.nodes[j] == x;
            if j < n - 1 {
                assert(s.nodes[j] == x);
                assert(among_first(s.nodes, n - 1, x));
                assert(before.contains(x));
                let i = choose|i: int| 0 <= i < before.len() && before[i] == x;
                assert(now[i] == x);
            } else {
                assert(now[now.len() - 1] == x);
            }
        }
    }
}

/// Offers the votes of the honest nodes and the acts of the Byzantine
/// ones, node after node; hands back the Byzantine nodes.
fn offer_votes(state: &AlpenglowState, actions: &mut Vec<AlpenglowAction>, Ghost(from): Ghost<int>) -> (byzantine:
    Vec<NodeId>)
    requires
        state.wf(),
        0 <= from <= old(actions)@.len(),
        all_offered(state.deep_view(), old(actions)@, from),
    ensures
        appended(old(actions)@, final(actions)@),
        all_offered(state.deep_view(), final(actions)@, from),
        byzantine@ == byzantine_nodes(state.deep_view(), state.deep_view().nodes.len() as int),
        forall|a: AlpenglowAction|
            (a is Vote || a is ByzantineVote) && offered(state.deep_view(), a) ==> #[trigger] lists(
                final(actions)@,
                from,
                a,
            ),
{
    let ghost s = state.deep_view();
    let ghost given = actions@;
    let mut byzantine: Vec<NodeId> = Vec::new();
    let mut n: usize = 0;
    assert(actions@.subrange(0, given.len() as int) =~= given);
    while n < state.nodes.len()
        invariant
            n <= state.nodes@.len(),
            state.wf(),
            s == state.deep_view(),
            0 <= from <= given.len(),
            appended(given, actions@),
            all_offered(s, actions@, from),
            byzantine@ == byzantine_nodes(s, n as int),
            forall|a: AlpenglowAction|
                (a is Vote || a is ByzantineVote) && offered(s, a) && among_first(s.nodes, n as int, node_of(a))
                    ==> #[trigger] lists(actions@, from, a),
        decreases state.nodes@.len() - n,
    {
        let node = state.nodes[n];
        let ghost before = actions@;
        assert(s.nodes.contains(s.nodes[n as int]));
        match state.status.get(&node) {
            Some(NodeStatus::Honest) => {
                offer_node_votes(state, node, actions, Ghost(from));
            },
            Some(NodeStatus::Byzantine(strategy)) => {
                byzantine.push(node);
                offer_node_acts(state, node, strategy, actions, Ghost(from));
            },
            _ => {},
        }
        proof {
            if before != actions@ {
                lemma_appended_twice(given, before, actions@);
            }
            assert(appended(before, actions@)) by {
                assert(actions@.subrange(0, before.len() as int) =~= before);
            }
            assert forall|a: AlpenglowAction|
                (a is Vote || a is ByzantineVote) && offered(s, a) && among_first(s.nodes, n + 1, node_of(a))
                implies #[trigger] lists(actions@, from, a) by {
                if among_first(s.nodes, n as int, node_of(a)) {
                    lemma_still_listed(before, actions@, from, a);
                } else {
                    let j = choose|j: int| 0 <= j < n + 1 && j < s.nodes.len() && #[trigger] s.nodes[j] == node_of(a);
                    assert(j == n);
                    assert(node_of(a) == node);
                    if a is Vote {
                        assert(votes_below(s, a, node, u32::MAX + 1));
                    } else {
                        assert(acts_below(s, a, node, u32::MAX + 1));
                    }
                }
            }
        }
        n += 1;
    }
    proof {
        assert forall|a: AlpenglowAction|
            (a is Vote || a is ByzantineVote) && offered(s, a) implies #[trigger] lists(actions@, from, a) by {
            let j = choose|j: int| 0 <= j < s.nodes.len() && s.nodes[j] == node_of(a);
            assert(s.nodes[j] == node_of(a));
            assert(among_first(s.nodes, s.nodes.len() as int, node_of(a)));
        }
    }
    byzantine
}

/// Whether `action` is a timeout of `node` in a slot below `bound` that has begun.
pub open spec fn times_out_below(s: StateView, action: AlpenglowAction, node: NodeId, bound: int) -> bool {
    match action {
        AlpenglowAction::Timeout { node: n, slot } => n == node && begun(s, slot) && slot < bound,
        _ => false,
    }
}

/// Offers the timeouts of the honest node `node`.
fn offer_node_timeouts(
    state: &AlpenglowState,
    node: NodeId,
    actions: &mut Vec<AlpenglowAction>,
    Ghost(from): Ghost<int>,
)
    requires
        0 <= from <= old(actions)@.len(),
        all_offered(state.deep_view(), old(actions)@, from),
        state.deep_view().nodes.contains(node),
        state.deep_view().is_honest(node),
    ensures
        appended(old(actions)@, final(actions)@),
        all_offered(state.deep_view(), final(actions)@, from),
        forall|a: AlpenglowAction|
            times_out_below(state.deep_view(), a, node, u32::MAX + 1) ==> #[trigger] lists(
                final(actions)@,
                from,
                a,
            ),
{
    let ghost s = state.deep_view();
    let ghost given = actions@;
    let mut slot: u64 = 1;
    assert(actions@.subrange(0, given.len() as int) =~= given);
    while slot <= state.current_slot as u64
        invariant
            1 <= slot <= state.current_slot + 1,
            s == state.deep_view(),
            s.nodes.contains(node),
            s.is_honest(node),
            0 <= from <= given.len(),
            appended(given, actions@),
            all_offered(s, actions@, from),
            forall|a: AlpenglowAction|
                times_out_below(s, a, node, slot as int) ==> #[trigger] lists(actions@, from, a),
        decreases state.current_slot + 1 - slot,
    {
        let ghost before = actions@;
        let timeout = AlpenglowAction::Timeout { node, slot: slot as u32 };
        offer(actions, timeout, Ghost(s), Ghost(from));
        proof {
            lemma_appended_twice(given, before, actions@);
            assert forall|a: AlpenglowAction| times_out_below(s, a, node, slot + 1) implies #[trigger] lists(
                actions@,
                from,
                a,
            ) by {
                if times_out_below(s, a, node, slot as int) {
                    lemma_still_listed(before, actions@, from, a);
                } else {
                    lemma_lists_same(actions@, from, timeout, a);
                }
            }
        }
        slot += 1;
    }
}

/// Offers the timeouts of the honest nodes, node after node.
fn offer_timeouts(state: &AlpenglowState, actions: &mut Vec<AlpenglowAction>, Ghost(from): Ghost<int>)
    requires
        state.wf(),
        0 <= from <= old(actions)@.len(),
        all_offered(state.deep_view(), old(actions)@, from),
    ensures
        appended(old(actions)@, final(actions)@),
        all_offered(state.deep_view(), final(actions)@, from),
        forall|a: AlpenglowAction|
            a is Timeout && offered(state.deep_view(), a) ==> #[trigger] lists(final(actions)@, from, a),
{
    let ghost s = state.deep_view();
    let ghost given = actions@;
    let mut n: usize = 0;
    assert(actions@.subrange(0, given.len() as int) =~= given);
    while n < state.nodes.len()
        invariant
            n <= state.nodes@.len(),
            state.wf(),
            s == state.deep_view(),
            0 <= from <= given.len(),
            appended(given, actions@),
            all_offered(s, actions@, from),
            forall|a: AlpenglowAction|
                a is Timeout && offered(s, a) && among_first(s.nodes, n as int, node_of(a)) ==> #[trigger] lists(
                    actions@,
                    from,
                    a,
                ),
        decreases state.nodes@.len() - n,
    {
        let node = state.nodes[n];
        let ghost before = actions@;
        assert(s.nodes.contains(s.nodes[n as int]));
        if state.is_honest(node) {
            offer_node_timeouts(state, node, actions, Ghost(from));
        }
        proof {
            assert(appended(before, actions@)) by {
                assert(actions@.subrange(0, before.len() as int) =~= before);
            }
            lemma_appended_twice(given, before, actions@);
            assert forall|a: AlpenglowAction|
                a is Timeout && offered(s, a) && among_first(s.nodes, n + 1, node_of(a)) implies #[trigger] lists(
                actions@,
                from,
                a,
            ) by {
                if among_first(s.nodes, n as int, node_of(a)) {
                    lemma_still_listed(before, actions@, from, a);
                } else {
                    let j = choose|j: int| 0 <= j < n + 1 && j < s.nodes.len() && #[trigger] s.nodes[j] == node_of(a);
                    assert(j == n);
                    assert(times_out_below(s, a, node, u32::MAX + 1));
                }
            }
        }
        n += 1;
    }
    proof {
        assert forall|a: AlpenglowAction| a is Timeout && offered(s, a) implies #[trigger] lists(
            actions@,
            from,
            a,
        ) by {
            let j = choose|j: int| 0 <= j < s.nodes.len() && s.nodes[j] == node_of(a);
            assert(s.nodes[j] == node_of(a));
            assert(among_first(s.nodes, s.nodes.len() as int, node_of(a)));
        }
    }
}

/// The first `count` of `list`.
fn first_of(list: &Vec<NodeId>, count: usize) -> (out: Vec<NodeId>)
    requires
        count <= list@.len(),
    ensures
        out@ == list@.subrange(0, count as int),
{
    let mut out: Vec<NodeId> = Vec::new();
    let mut i: usize = 0;
    while i < count
        invariant
            i <= count,
            count <= list@.len(),
            out@ == list@.subrange(0, i as int),
        decreases count - i,
    {
        out.push(list[i]);
        i += 1;
        assert(out@ =~= list@.subrange(0, i as int));
    }
    out
}

/// The nodes of `list` from `from` up to `to`, as a set.
fn set_of(list: &Vec<NodeId>, from: usize, to: usize) -> (set: SortedSet<NodeId>)
    requires
        from <= to <= list@.len(),
    ensures
        set.wf(),
        set@ == list@.subrange(from as int, to as int).to_set(),
{
    let mut set: SortedSet<NodeId> = SortedSet::new();
    let mut i: usize = from;
    assert(list@.subrange(from as int, from as int).to_set() =~= Set::<NodeId>::empty());
    while i < to
        invariant
            from <= i <= to,
            to <= list@.len(),
            set.wf(),
            set@ == list@.subrange(from as int, i as int).to_set(),
        decreases to - i,
    {
        set.insert(list[i]);
        proof {
            let before = list@.subrange(from as int, i as int);
            let after = list@.subrange(from as int, i + 1);
            assert(after =~= before.push(list@[i as int]));
            assert forall|x: NodeId| after.contains(x) <==> (before.contains(x) || x == list@[i as int]) by {
                if before.contains(x) {
                    let j = choose|j: int| 0 <= j < before.len() && before[j] == x;
                    assert(after[j] == x);
                }
                if x == list@[i as int] {
                    assert(after[after.len() - 1] == x);
                }
                if after.contains(x) {
                    let j = choose|j: int| 0 <= j < after.len() && after[j] == x;
                    if j < before.len() {
                        assert(before[j] == x);
                    }
                }
            }
            assert(set@ =~= after.to_set());
        }
        i += 1;
    }
    set
}

/// Offers a partition down the middle of the registry, or its healing.
fn offer_partition(state: &AlpenglowState, actions: &mut Vec<AlpenglowAction>, Ghost(from): Ghost<int>)
    requires
        0 <= from <= old(actions)@.len(),
        all_offered(state.deep_view(), old(actions)@, from),
    ensures
        appended(old(actions)@, final(actions)@),
        all_offered(state.deep_view(), final(actions)@, from),
        forall|a: AlpenglowAction|
            (a is NetworkPartition || a is HealPartition) && offered(state.deep_view(), a) ==> #[trigger] lists(
                final(actions)@,
                from,
                a,
            ),
{
    let ghost s = state.deep_view();
    let ghost given = actions@;
    assert(actions@.subrange(0, given.len() as int) =~= given);
    match &state.network_partition {
        None => {
            if state.nodes.len() >= 4 {
                let mid = state.nodes.len() / 2;
                let nodes_a = set_of(&state.nodes, 0, mid);
                let nodes_b = set_of(&state.nodes, mid, state.nodes.len());
                let part = AlpenglowAction::NetworkPartition { nodes_a, nodes_b };
                offer(actions, part, Ghost(s), Ghost(from));
                proof {
                    assert forall|a: AlpenglowAction|
                        (a is NetworkPartition || a is HealPartition) && offered(s, a) implies #[trigger] lists(
                        actions@,
                        from,
                        a,
                    ) by {
                        lemma_lists_same(actions@, from, part, a);
                    }
                }
            }
        },
        Some(_) => {
            let heal = AlpenglowAction::HealPartition;
            offer(actions, heal, Ghost(s), Ghost(from));
            proof {
                assert forall|a: AlpenglowAction|
                    (a is NetworkPartition || a is HealPartition) && offered(s, a) implies #[trigger] lists(
                    actions@,
                    from,
                    a,
                ) by {
                    lemma_lists_same(actions@, from, heal, a);
                }
            }
        },
    }
}

/// The number of members of the coalition that `action` forms.
pub open spec fn coalition_size(action: AlpenglowAction) -> int {
    match action {
        AlpenglowAction::FormCoalition { members, strategy } => members@.len() as int,
        _ => 0,
    }
}

/// Offers the coalitions of the first two, three and four Byzantine nodes.
fn offer_coalitions(
    state: &AlpenglowState,
    byzantine: &Vec<NodeId>,
    actions: &mut Vec<AlpenglowAction>,
    Ghost(from): Ghost<int>,
)
    requires
        0 <= from <= old(actions)@.len(),
        all_offered(state.deep_view(), old(actions)@, from),
        byzantine@ == byzantine_nodes(state.deep_view(), state.deep_view().nodes.len() as int),
    ensures
        appended(old(actions)@, final(actions)@),
        all_offered(state.deep_view(), final(actions)@, from),
        forall|a: AlpenglowAction|
            a is FormCoalition && offered(state.deep_view(), a) ==> #[trigger] lists(final(actions)@, from, a),
{
    let ghost s = state.deep_view();
    let ghost given = actions@;
    assert(actions@.subrange(0, given.len() as int) =~= given);
    let most = if byzantine.len() < MAX_OFFERED_COALITION {
        byzantine.len()
    } else {
        MAX_OFFERED_COALITION
    };
    let mut size: usize = 2;
    while size <= most
        invariant
            2 <= size,
            size <= most + 1 || most < 2,
            most <= byzantine@.len(),
            most <= MAX_OFFERED_COALITION,
            most == byzantine@.len() || most == MAX_OFFERED_COALITION,
            s == state.deep_view(),
            byzantine@ == byzantine_nodes(s, s.nodes.len() as int),
            0 <= from <= given.len(),
            appended(given, actions@),
            all_offered(s, actions@, from),
            forall|a: AlpenglowAction|
                a is FormCoalition && offered(s, a) && coalition_size(a) < size ==> #[trigger] lists(
                    actions@,
                    from,
                    a,
                ),
        decreases most + 1 - size,
    {
        let ghost before = actions@;
        let mut blocks: Vec<u32> = Vec::new();
        blocks.push(0);
        blocks.push(1);
        blocks.push(2);
        assert(blocks@ =~= seq![0u32, 1u32, 2u32]);
        let split = AlpenglowAction::FormCoalition {
            members: first_of(byzantine, size),
            strategy: CoalitionAttackType::SplitVote { target_blocks: blocks },
        };
        offer(actions, split, Ghost(s), Ghost(from));
        let ghost middle = actions@;
        let mut slots: Vec<u32> = Vec::new();
        slots.push(1);
        slots.push(3);
        slots.push(5);
        assert(slots@ =~= seq![1u32, 3u32, 5u32]);
        let targeting = AlpenglowAction::FormCoalition {
            members: first_of(byzantine, size),
            strategy: CoalitionAttackType::StrategicTargeting {
                high_priority_slots: slots,
                disruption_threshold: Fraction::from_micros(500_000),
            },
        };
        offer(actions, targeting, Ghost(s), Ghost(from));
        proof {
            lemma_appended_twice(before, middle, actions@);
            lemma_appended_twice(given, before, actions@);
            lemma_still_listed(middle, actions@, from, split);
            assert forall|a: AlpenglowAction|
                a is FormCoalition && offered(s, a) && coalition_size(a) < size + 1 implies #[trigger] lists(
                actions@,
                from,
                a,
            ) by {
                if coalition_size(a) < size {
                    lemma_still_listed(before, actions@, from, a);
                } else {
                    match a {
                        AlpenglowAction::FormCoalition { members, strategy } => {
                            if strategy.deep_view() == (CoalitionAttackView::SplitVote {
                                target_blocks: seq![0u32, 1u32, 2u32],
                            }) {
                                lemma_lists_same(actions@, from, split, a);
                            } else {
                                lemma_lists_same(actions@, from, targeting, a);
                            }
                        },
                        _ => {},
                    }
                }
            }
        }
        size += 1;
    }
}

/// Whether `action` is an attack of coalition `index` on a votable slot below `bound`.
pub open spec fn attacks_below(s: StateView, action: AlpenglowAction, index: usize, bound: int) -> bool {
    match action {
        AlpenglowAction::CoordinateAttack { coalition_index, target_slot } => coalition_index == index && votable(
            s,
            target_slot,
        ) && target_slot < bound,
        _ => false,
    }
}

/// Offers the attacks of the active coalition `index`.
fn offer_attacks(state: &AlpenglowState, index: usize, actions: &mut Vec<AlpenglowAction>, Ghost(from): Ghost<int>)
    requires
        0 <= from <= old(actions)@.len(),
        all_offered(state.deep_view(), old(actions)@, from),
        state.deep_view().coalition_state.contains_key(index),
        state.deep_view().coalition_state[index].active,
    ensures
        appended(old(actions)@, final(actions)@),
        all_offered(state.deep_view(), final(actions)@, from),
        forall|a: AlpenglowAction|
            attacks_below(state.deep_view(), a, index, u32::MAX + 1) ==> #[trigger] lists(final(actions)@, from, a),
{
    let ghost s = state.deep_view();
    let ghost given = actions@;
    let last = last_votable(state.current_slot);
    let mut slot: u64 = state.current_slot as u64;
    assert(actions@.subrange(0, given.len() as int) =~= given);
    while slot <= last
        invariant
            state.current_slot <= slot,
            slot <= last + 1 || slot == state.current_slot,
            last == last_votable_of(s),
            s == state.deep_view(),
            s.coalition_state.contains_key(index),
            s.coalition_state[index].active,
            0 <= from <= given.len(),
            appended(given, actions@),
            all_offered(s, actions@, from),
            forall|a: AlpenglowAction| attacks_below(s, a, index, slot as int) ==> #[trigger] lists(actions@, from, a),
        decreases last + 1 - slot,
    {
        let ghost before = actions@;
        let attack = AlpenglowAction::CoordinateAttack { coalition_index: index, target_slot: slot as u32 };
        offer(actions, attack, Ghost(s), Ghost(from));
        proof {
            lemma_appended_twice(given, before, actions@);
            assert forall|a: AlpenglowAction| attacks_below(s, a, index, slot + 1) implies #[trigger] lists(
                actions@,
                from,
                a,
            ) by {
                if attacks_below(s, a, index, slot as int) {
                    lemma_still_listed(before, actions@, from, a);
                } else {
                    lemma_lists_same(actions@, from, attack, a);
                }
            }
        }
        slot += 1;
    }
}

/// The coalition that `action` coordinates.
pub open spec fn coalition_of(action: AlpenglowAction) -> usize {
    match action {
        AlpenglowAction::CoordinateAttack { coalition_index, .. } => coalition_index,
        _ => 0,
    }
}

/// Whether `x` is among the first `n` of `keys`.
pub open spec fn key_among_first(keys: Seq<usize>, n: int, x: usize) -> bool {
    exists|j: int| 0 <= j < n && j < keys.len() && #[trigger] keys[j] == x
}

/// Offers the attacks of the active coalitions, coalition after coalition.
fn offer_coordinations(state: &AlpenglowState, actions: &mut Vec<AlpenglowAction>, Ghost(from): Ghost<int>)
    requires
        state.wf(),
        0 <= from <= old(actions)@.len(),
        all_offered(state.deep_view(), old(actions)@, from),
    ensures
        appended(old(actions)@, final(actions)@),
        all_offered(state.deep_view(), final(actions)@, from),
        forall|a: AlpenglowAction|
            a is CoordinateAttack && offered(state.deep_view(), a) ==> #[trigger] lists(final(actions)@, from, a),
{
    let ghost s = state.deep_view();
    let ghost given = actions@;
    let ghost keys = state.coalition_state.key_seq();
    proof {
        state.coalition_state.lemma_entries();
    }
    let count = state.coalition_state.len();
    let mut c: usize = 0;
    assert(actions@.subrange(0, given.len() as int) =~= given);
    while c < count
        invariant
            c <= count,
            count == keys.len(),
            keys == state.coalition_state.key_seq(),
            state.wf(),
            s == state.deep_view(),
            0 <= from <= given.len(),
            appended(given, actions@),
            all_offered(s, actions@, from),
            forall|a: AlpenglowAction|
                a is CoordinateAttack && offered(s, a) && key_among_first(keys, c as int, coalition_of(a))
                    ==> #[trigger] lists(actions@, from, a),
        decreases count - c,
    {
        let ghost before = actions@;
        let index = state.coalition_state.key_at(c);
        if state.coalition_state.value_at(c).active {
            offer_attacks(state, index, actions, Ghost(from));
        }
        proof {
            assert(appended(before, actions@)) by {
                assert(actions@.subrange(0, before.len() as int) =~= before);
            }
            lemma_appended_twice(given, before, actions@);
            assert forall|a: AlpenglowAction|
                a is CoordinateAttack && offered(s, a) && key_among_first(keys, c + 1, coalition_of(a))
                implies #[trigger] lists(actions@, from, a) by {
                if key_among_first(keys, c as int, coalition_of(a)) {
                    lemma_still_listed(before, actions@, from, a);
                } else {
                    let j = choose|j: int| 0 <= j < c + 1 && j < keys.len() && #[trigger] keys[j] == coalition_of(a);
                    assert(j == c);
                    assert(attacks_below(s, a, index, u32::MAX + 1));
                }
            }
        }
        c += 1;
    }
    proof {
        state.coalition_state.lemma_entries();
        assert forall|a: AlpenglowAction| a is CoordinateAttack && offered(s, a) implies #[trigger] lists(
            actions@,
            from,
            a,
        ) by {
            let j = keys.index_of(coalition_of(a));
            assert(keys[j] == coalition_of(a));
            assert(key_among_first(keys, count as int, coalition_of(a)));
        }
    }
}

/// Offers every Byzantine node that equivocates or withholds its votes a sharper strategy.
fn offer_adaptations(
    state: &AlpenglowState,
    byzantine: &Vec<NodeId>,
    actions: &mut Vec<AlpenglowAction>,
    Ghost(from): Ghost<int>,
)
    requires
        state.wf(),
        0 <= from <= old(actions)@.len(),
        all_offered(state.deep_view(), old(actions)@, from),
        byzantine@ == byzantine_nodes(state.deep_view(), state.deep_view().nodes.len() as int),
    ensures
        appended(old(actions)@, final(actions)@),
        all_offered(state.deep_view(), final(actions)@, from),
        forall|a: AlpenglowAction|
            a is AdaptStrategy && offered(state.deep_view(), a) ==> #[trigger] lists(final(actions)@, from, a),
{
    let ghost s = state.deep_view();
    let ghost given = actions@;
    let mut b: usize = 0;
    proof {
        lemma_byzantine_nodes(s, s.nodes.len() as int);
    }
    assert(actions@.subrange(0, given.len() as int) =~= given);
    while b < byzantine.len()
        invariant
            b <= byzantine@.len(),
            state.wf(),
            s == state.deep_view(),
            byzantine@ == byzantine_nodes(s, s.nodes.len() as int),
            forall|i: int|
                0 <= i < byzantine@.len() ==> among_first(s.nodes, s.nodes.len() as int, #[trigger] byzantine@[i]),
            0 <= from <= given.len(),
            appended(given, actions@),
            all_offered(s, actions@, from),
            forall|a: AlpenglowAction|
                a is AdaptStrategy && offered(s, a) && among_first(byzantine@, b as int, node_of(a))
                    ==> #[trigger] lists(actions@, from, a),
        decreases byzantine@.len() - b,
    {
        let ghost before = actions@;
        let node = byzantine[b];
        proof {
            assert(among_first(s.nodes, s.nodes.len() as int, byzantine@[b as int]));
            let j = choose|j: int| 0 <= j < s.nodes.len() && #[trigger] s.nodes[j] == node;
            assert(s.nodes.contains(s.nodes[j]));
        }
        match state.status.get(&node) {
            Some(NodeStatus::Byzantine(ByzantineStrategy::Equivocation)) => {
                let mut slots: Vec<u32> = Vec::new();
                slots.push(2);
                slots.push(4);
                assert(slots@ =~= seq![2u32, 4u32]);
                let sharper = AlpenglowAction::AdaptStrategy {
                    node,
                    new_strategy: ByzantineStrategy::SelectiveEquivocation {
                        min_stake_threshold: 100,
                        target_slots: slots,
                    },
                    reason: String::from_str("Escalating attack"),
                };
                offer(actions, sharper, Ghost(s), Ghost(from));
                proof {
                    assert forall|a: AlpenglowAction|
                        a is AdaptStrategy && offered(s, a) && node_of(a) == node implies #[trigger] lists(
                        actions@,
                        from,
                        a,
                    ) by {
                        lemma_lists_same(actions@, from, sharper, a);
                    }
                }
            },
            Some(NodeStatus::Byzantine(ByzantineStrategy::WithholdVotes)) => {
                let sharper = AlpenglowAction::AdaptStrategy {
                    node,
                    new_strategy: ByzantineStrategy::TimingAttack {
                        delay_votes: true,
                        max_delay: 500,
                        target_path: Some(VotePath::Fast),
                    },
                    reason: String::from_str("Switching to timing attack"),
                };
                offer(actions, sharper, Ghost(s), Ghost(from));
                proof {
                    assert forall|a: AlpenglowAction|
                        a is AdaptStrategy && offered(s, a) && node_of(a) == node implies #[trigger] lists(
                        actions@,
                        from,
                        a,
                    ) by {
                        lemma_lists_same(actions@, from, sharper, a);
                    }
                }
            },
            _ => {
                assert(forall|a: AlpenglowAction|
                    a is AdaptStrategy && node_of(a) == node ==> !#[trigger] offered(s, a));
            },
        }
        proof {
            assert(appended(before, actions@)) by {
                assert(actions@.subrange(0, before.len() as int) =~= before);
            }
            lemma_appended_twice(given, before, actions@);
            assert forall|a: AlpenglowAction|
                a is AdaptStrategy && offered(s, a) && among_first(byzantine@, b + 1, node_of(a))
                implies #[trigger] lists(actions@, from, a) by {
                if among_first(byzantine@, b as int, node_of(a)) {
                    lemma_still_listed(before, actions@, from, a);
                } else {
                    let j = choose|j: int|
                        0 <= j < b + 1 && j < byzantine@.len() && #[trigger] byzantine@[j] == node_of(a);
                    assert(j == b);
                    assert(node_of(a) == node);
                }
            }
        }
        b += 1;
    }
    proof {
        assert forall|a: AlpenglowAction| a is AdaptStrategy && offered(s, a) implies #[trigger] lists(
            actions@,
            from,
            a,
        ) by {
            let node = node_of(a);
            let j = choose|j: int| 0 <= j < s.nodes.len() && s.nodes[j] == node;
            assert(s.nodes[j] == node);
            assert(among_first(s.nodes, s.nodes.len() as int, node));
            assert(s.is_byzantine(node));
            assert(byzantine@.contains(node));
            let i = choose|i: int| 0 <= i < byzantine@.len() && byzantine@[i] == node;
            assert(byzantine@[i] == node);
            assert(among_first(byzantine@, byzantine@.len() as int, node));
        }
    }
}

/// Whether `action` delivers one of the first `m` pending messages, which is due.
pub open spec fn delivers_before(s: StateView, action: AlpenglowAction, m: int) -> bool {
    match action {
        AlpenglowAction::DeliverMessage { message_id } => exists|i: int|
            0 <= i < m && i < s.message_queue.pending_messages.len() && (
            #[trigger] s.message_queue.pending_messages[i]).id == message_id
                && s.message_queue.pending_messages[i].scheduled_delivery_time <= s.global_time,
        _ => false,
    }
}

/// Offers the delivery of every pending message that is due.
fn offer_deliveries(state: &AlpenglowState, actions: &mut Vec<AlpenglowAction>, Ghost(from): Ghost<int>)
    requires
        0 <= from <= old(actions)@.len(),
        all_offered(state.deep_view(), old(actions)@, from),
    ensures
        appended(old(actions)@, final(actions)@),
        all_offered(state.deep_view(), final(actions)@, from),
        forall|a: AlpenglowAction|
            a is DeliverMessage && offered(state.deep_view(), a) ==> #[trigger] lists(final(actions)@, from, a),
{
    let ghost s = state.deep_view();
    let ghost given = actions@;
    let now = state.global_time;
    let mut m: usize = 0;
    assert(actions@.subrange(0, given.len() as int) =~= given);
    while m < state.message_queue.pending_messages.len()
        invariant
            m <= state.message_queue.pending_messages@.len(),
            s == state.deep_view(),
            now == state.global_time,
            0 <= from <= given.len(),
            appended(given, actions@),
            all_offered(s, actions@, from),
            forall|a: AlpenglowAction| delivers_before(s, a, m as int) ==> #[trigger] lists(actions@, from, a),
        decreases state.message_queue.pending_messages@.len() - m,
    {
        let ghost before = actions@;
        let pending = &state.message_queue.pending_messages[m];
        assert(s.message_queue.pending_messages[m as int] == pending.deep_view());
        if pending.scheduled_delivery_time <= now {
            let deliver = AlpenglowAction::DeliverMessage { message_id: pending.id };
            offer(actions, deliver, Ghost(s), Ghost(from));
            proof {
                assert forall|a: AlpenglowAction|
                    delivers_before(s, a, m + 1) && !delivers_before(s, a, m as int) implies #[trigger] lists(
                    actions@,
                    from,
                    a,
                ) by {
                    lemma_lists_same(actions@, from, deliver, a);
                }
            }
        }
        proof {
            assert(appended(before, actions@)) by {
                assert(actions@.subrange(0, before.len() as int) =~= before);
            }
            lemma_appended_twice(given, before, actions@);
            assert forall|a: AlpenglowAction| delivers_before(s, a, m + 1) implies #[trigger] lists(
                actions@,
                from,
                a,
            ) by {
                if delivers_before(s, a, m as int) {
                    lemma_still_listed(before, actions@, from, a);
                }
            }
        }
        m += 1;
    }
}

/// The vote that `action` sends from `from` to `to` as critical, if it sends one.
pub open spec fn carried_vote(action: AlpenglowAction, from: NodeId, to: NodeId) -> Option<Vote> {
    match action {
        AlpenglowAction::SendMessage { from: f, to: t, content, priority } => if f == from && t == to && priority
            == MessagePriority::Critical {
            match content.deep_view() {
                MessageContentView::Vote(v) => Some(v),
                _ => None,
            }
        } else {
            None
        },
        _ => None,
    }
}

/// Whether `v` is among the first `n` of `list`.
pub open spec fn vote_among_first(list: Seq<Vote>, n: int, v: Vote) -> bool {
    exists|j: int| 0 <= j < n && j < list.len() && #[trigger] list[j] == v
}

/// Offers to send from `sender` to `to` each vote of `list`, the list of `sender` for `slot`.
fn offer_list_sends(
    state: &AlpenglowState,
    sender: NodeId,
    to: NodeId,
    list: &Vec<Vote>,
    actions: &mut Vec<AlpenglowAction>,
    Ghost(slot): Ghost<Slot>,
    Ghost(from): Ghost<int>,
)
    requires
        0 <= from <= old(actions)@.len(),
        all_offered(state.deep_view(), old(actions)@, from),
        sender != to,
        state.deep_view().nodes.contains(sender),
        state.deep_view().nodes.contains(to),
        state.deep_view().is_honest(sender) || state.deep_view().is_byzantine(sender),
        state.deep_view().has_vote_list(sender, slot),
        state.deep_view().votes[sender][slot] == list@,
    ensures
        appended(old(actions)@, final(actions)@),
        all_offered(state.deep_view(), final(actions)@, from),
        forall|a: AlpenglowAction|
            carried_vote(a, sender, to) is Some && list@.contains(carried_vote(a, sender, to)->0)
                ==> #[trigger] lists(final(actions)@, from, a),
{
    let ghost s = state.deep_view();
    let ghost given = actions@;
    let mut v: usize = 0;
    assert(actions@.subrange(0, given.len() as int) =~= given);
    while v < list.len()
        invariant
            v <= list@.len(),
            s == state.deep_view(),
            sender != to,
            s.nodes.contains(sender),
            s.nodes.contains(to),
            s.is_honest(sender) || s.is_byzantine(sender),
            s.has_vote_list(sender, slot),
            s.votes[sender][slot] == list@,
            0 <= from <= given.len(),
            appended(given, actions@),
            all_offered(s, actions@, from),
            forall|a: AlpenglowAction|
                carried_vote(a, sender, to) is Some && vote_among_first(
                    list@,
                    v as int,
                    carried_vote(a, sender, to)->0,
                ) ==> #[trigger] lists(actions@, from, a),
        decreases list@.len() - v,
    {
        let ghost before = actions@;
        let send = AlpenglowAction::SendMessage {
            from: sender,
            to,
            content: MessageContent::Vote(list[v]),
            priority: MessagePriority::Critical,
        };
        proof {
            assert(list@.contains(list@[v as int]));
            assert(offered(s, send));
        }
        offer(actions, send, Ghost(s), Ghost(from));
        proof {
            lemma_appended_twice(given, before, actions@);
            assert forall|a: AlpenglowAction|
                carried_vote(a, sender, to) is Some && vote_among_first(
                    list@,
                    v + 1,
                    carried_vote(a, sender, to)->0,
                ) implies #[trigger] lists(actions@, from, a) by {
                let vote = carried_vote(a, sender, to)->0;
                if vote_among_first(list@, v as int, vote) {
                    lemma_still_listed(before, actions@, from, a);
                } else {
                    let j = choose|j: int| 0 <= j < v + 1 && j < list@.len() && #[trigger] list@[j] == vote;
                    assert(j == v);
                    lemma_lists_same(actions@, from, send, a);
                }
            }
        }
        v += 1;
    }
    proof {
        assert forall|a: AlpenglowAction|
            carried_vote(a, sender, to) is Some && list@.contains(carried_vote(a, sender, to)->0)
            implies #[trigger] lists(actions@, from, a) by {
            let vote = carried_vote(a, sender, to)->0;
            let j = choose|j: int| 0 <= j < list@.len() && list@[j] == vote;
            assert(list@[j] == vote);
            assert(vote_among_first(list@, list@.len() as int, vote));
        }
    }
}

/// Whether `v` is in the list of `sender` for one of the first `n` of `slots`.
pub open spec fn vote_in_first(s: StateView, sender: NodeId, slots: Seq<Slot>, n: int, v: Vote) -> bool {
    exists|j: int|
        0 <= j < n && j < slots.len() && s.has_vote_list(sender, #[trigger] slots[j])
            && s.votes[sender][slots[j]].contains(v)
}

/// Offers to send from `sender` to `to` each vote in the lists of `sender`.
fn offer_vote_sends(
    state: &AlpenglowState,
    sender: NodeId,
    to: NodeId,
    actions: &mut Vec<AlpenglowAction>,
    Ghost(from): Ghost<int>,
)
    requires
        state.wf(),
        0 <= from <= old(actions)@.len(),
        all_offered(state.deep_view(), old(actions)@, from),
        sender != to,
        state.deep_view().nodes.contains(sender),
        state.deep_view().nodes.contains(to),
        state.deep_view().is_honest(sender) || state.deep_view().is_byzantine(sender),
    ensures
        appended(old(actions)@, final(actions)@),
        all_offered(state.deep_view(), final(actions)@, from),
        forall|a: AlpenglowAction|
            carried_vote(a, sender, to) is Some && offered(state.deep_view(), a) ==> #[trigger] lists(
                final(actions)@,
                from,
                a,
            ),
{
    let ghost s = state.deep_view();
    let ghost given = actions@;
    assert(actions@.subrange(0, given.len() as int) =~= given);
    proof {
        state.votes.lemma_deep_view();
    }
    match state.votes.get(&sender) {
        Some(own) => {
            proof {
                own.lemma_entries();
                own.lemma_deep_view();
            }
            let ghost slots = own.key_seq();
            let count = own.len();
            let mut k: usize = 0;
            while k < count
                invariant
                    k <= count,
                    count == slots.len(),
                    slots == own.key_seq(),
                    own.wf(),
                    state.wf(),
                    s == state.deep_view(),
                    s.votes.contains_key(sender),
                    s.votes[sender] == own.deep_view(),
                    sender != to,
                    s.nodes.contains(sender),
                    s.nodes.contains(to),
                    s.is_honest(sender) || s.is_byzantine(sender),
                    0 <= from <= given.len(),
                    appended(given, actions@),
                    all_offered(s, actions@, from),
                    forall|a: AlpenglowAction|
                        carried_vote(a, sender, to) is Some && vote_in_first(
                            s,
                            sender,
                            slots,
                            k as int,
                            carried_vote(a, sender, to)->0,
                        ) ==> #[trigger] lists(actions@, from, a),
                decreases count - k,
            {
                let ghost before = actions@;
                let slot = own.key_at(k);
                let list = own.value_at(k);
                proof {
                    own.lemma_entries();
                    own.lemma_deep_view();
                    crate::consensus::lemma_vote_list_view(*list);
                    assert(s.has_vote_list(sender, slot));
                    assert(s.votes[sender][slot] == list@);
                }
                offer_list_sends(state, sender, to, list, actions, Ghost(slot), Ghost(from));
                proof {
                    lemma_appended_twice(given, before, actions@);
                    assert forall|a: AlpenglowAction|
                        carried_vote(a, sender, to) is Some && vote_in_first(
                            s,
                            sender,
                            slots,
                            k + 1,
                            carried_vote(a, sender, to)->0,
                        ) implies #[trigger] lists(actions@, from, a) by {
                        let vote = carried_vote(a, sender, to)->0;
                        if vote_in_first(s, sender, slots, k as int, vote) {
                            lemma_still_listed(before, actions@, from, a);
                        } else {
                            let j = choose|j: int|
                                0 <= j < k + 1 && j < slots.len() && s.has_vote_list(sender, #[trigger] slots[j])
                                    && s.votes[sender][slots[j]].contains(vote);
                            assert(j == k);
                        }
                    }
                }
                k += 1;
            }
            proof {
                own.lemma_entries();
                own.lemma_deep_view();
                assert forall|a: AlpenglowAction|
                    carried_vote(a, sender, to) is Some && offered(s, a) implies #[trigger] lists(
                    actions@,
                    from,
                    a,
                ) by {
                    let vote = carried_vote(a, sender, to)->0;
                    let slot = choose|slot: Slot|
                        #[trigger] s.has_vote_list(sender, slot) && s.votes[sender][slot].contains(vote);
                    assert(own@.contains_key(slot));
                    let j = slots.index_of(slot);
                    assert(slots[j] == slot);
                    assert(vote_in_first(s, sender, slots, count as int, vote));
                }
            }
        },
        None => {
            assert(forall|slot: Slot| !#[trigger] s.has_vote_list(sender, slot));
        },
    }
}

/// The sender and the receiver of the message that `action` sends.
pub open spec fn link_of(action: AlpenglowAction) -> (NodeId, NodeId) {
    match action {
        AlpenglowAction::SendMessage { from, to, .. } => (from, to),
        _ => (0, 0),
    }
}

/// Offers to send from `sender` to `to` a heartbeat and each vote in the lists of `sender`.
fn offer_link_sends(
    state: &AlpenglowState,
    sender: NodeId,
    to: NodeId,
    actions: &mut Vec<AlpenglowAction>,
    Ghost(from): Ghost<int>,
)
    requires
        state.wf(),
        0 <= from <= old(actions)@.len(),
        all_offered(state.deep_view(), old(actions)@, from),
        sender != to,
        state.deep_view().nodes.contains(sender),
        state.deep_view().nodes.contains(to),
        state.deep_view().is_honest(sender) || state.deep_view().is_byzantine(sender),
    ensures
        appended(old(actions)@, final(actions)@),
        all_offered(state.deep_view(), final(actions)@, from),
        forall|a: AlpenglowAction|
            a is SendMessage && link_of(a) == (sender, to) && offered(state.deep_view(), a) ==> #[trigger] lists(
                final(actions)@,
                from,
                a,
            ),
{
    let ghost s = state.deep_view();
    let ghost given = actions@;
    let heartbeat = AlpenglowAction::SendMessage {
        from: sender,
        to,
        content: MessageContent::Heartbeat { sequence: state.global_time },
        priority: MessagePriority::Normal,
    };
    offer(actions, heartbeat, Ghost(s), Ghost(from));
    let ghost middle = actions@;
    offer_vote_sends(state, sender, to, actions, Ghost(from));
    proof {
        lemma_appended_twice(given, middle, actions@);
        lemma_still_listed(middle, actions@, from, heartbeat);
        assert forall|a: AlpenglowAction|
            a is SendMessage && link_of(a) == (sender, to) && offered(s, a) implies #[trigger] lists(
            actions@,
            from,
            a,
        ) by {
            if carried_vote(a, sender, to) is None {
                lemma_lists_same(actions@, from, heartbeat, a);
            }
        }
    }
}

/// Offers what `sender`, which has not crashed, may send to the other nodes of the registry.
fn offer_sends_of(state: &AlpenglowState, sender: NodeId, actions: &mut Vec<AlpenglowAction>, Ghost(from): Ghost<int>)
    requires
        state.wf(),
        0 <= from <= old(actions)@.len(),
        all_offered(state.deep_view(), old(actions)@, from),
        state.deep_view().nodes.contains(sender),
        state.deep_view().is_honest(sender) || state.deep_view().is_byzantine(sender),
    ensures
        appended(old(actions)@, final(actions)@),
        all_offered(state.deep_view(), final(actions)@, from),
        forall|a: AlpenglowAction|
            a is SendMessage && link_of(a).0 == sender && offered(state.deep_view(), a) ==> #[trigger] lists(
                final(actions)@,
                from,
                a,
            ),
{
    let ghost s = state.deep_view();
    let ghost given = actions@;
    let mut t: usize = 0;
    assert(actions@.subrange(0, given.len() as int) =~= given);
    while t < state.nodes.len()
        invariant
            t <= state.nodes@.len(),
            state.wf(),
            s == state.deep_view(),
            s.nodes.contains(sender),
            s.is_honest(sender) || s.is_byzantine(sender),
            0 <= from <= given.len(),
            appended(given, actions@),
            all_offered(s, actions@, from),
            forall|a: AlpenglowAction|
                a is SendMessage && link_of(a).0 == sender && offered(s, a) && among_first(
                    s.nodes,
                    t as int,
                    link_of(a).1,
                ) ==> #[trigger] lists(actions@, from, a),
        decreases state.nodes@.len() - t,
    {
        let ghost before = actions@;
        let to = state.nodes[t];
        assert(s.nodes.contains(s.nodes[t as int]));
        if sender != to {
            offer_link_sends(state, sender, to, actions, Ghost(from));
        }
        proof {
            assert(appended(before, actions@)) by {
                assert(actions@.subrange(0, before.len() as int) =~= before);
            }
            lemma_appended_twice(given, before, actions@);
            assert forall|a: AlpenglowAction|
                a is SendMessage && link_of(a).0 == sender && offered(s, a) && among_first(
                    s.nodes,
                    t + 1,
                    link_of(a).1,
                ) implies #[trigger] lists(actions@, from, a) by {
                if among_first(s.nodes, t as int, link_of(a).1) {
                    lemma_still_listed(before, actions@, from, a);
                } else {
                    let j = choose|j: int|
                        0 <= j < t + 1 && j < s.nodes.len() && #[trigger] s.nodes[j] == link_of(a).1;
                    assert(j == t);
                    assert(link_of(a) == (sender, to));
                }
            }
        }
        t += 1;
    }
    proof {
        assert forall|a: AlpenglowAction|
            a is SendMessage && link_of(a).0 == sender && offered(s, a) implies #[trigger] lists(
            actions@,
            from,
            a,
        ) by {
            let to = link_of(a).1;
            let j = choose|j: int| 0 <= j < s.nodes.len() && s.nodes[j] == to;
            assert(s.nodes[j] == to);
            assert(among_first(s.nodes, s.nodes.len() as int, to));
        }
    }
}

/// Offers what the nodes of the registry that have not crashed may send each other.
fn offer_sends(state: &AlpenglowState, actions: &mut Vec<AlpenglowAction>, Ghost(from): Ghost<int>)
    requires
        state.wf(),
        0 <= from <= old(actions)@.len(),
        all_offered(state.deep_view(), old(actions)@, from),
    ensures
        appended(old(actions)@, final(actions)@),
        all_offered(state.deep_view(), final(actions)@, from),
        forall|a: AlpenglowAction|
            a is SendMessage && offered(state.deep_view(), a) ==> #[trigger] lists(final(actions)@, from, a),
{
    let ghost s = state.deep_view();
    let ghost given = actions@;
    let mut f: usize = 0;
    assert(actions@.subrange(0, given.len() as int) =~= given);
    while f < state.nodes.len()
        invariant
            f <= state.nodes@.len(),
            state.wf(),
            s == state.deep_view(),
            0 <= from <= given.len(),
            appended(given, actions@),
            all_offered(s, actions@, from),
            forall|a: AlpenglowAction|
                a is SendMessage && offered(s, a) && among_first(s.nodes, f as int, link_of(a).0)
                    ==> #[trigger] lists(actions@, from, a),
        decreases state.nodes@.len() - f,
    {
        let ghost before = actions@;
        let sender = state.nodes[f];
        assert(s.nodes.contains(s.nodes[f as int]));
        if state.is_honest(sender) || state.is_byzantine(sender) {
            offer_sends_of(state, sender, actions, Ghost(from));
        }
        proof {
            assert(appended(before, actions@)) by {
                assert(actions@.subrange(0, before.len() as int) =~= before);
            }
            lemma_appended_twice(given, before, actions@);
            assert forall|a: AlpenglowAction|
                a is SendMessage && offered(s, a) && among_first(s.nodes, f + 1, link_of(a).0)
                implies #[trigger] lists(actions@, from, a) by {
                if among_first(s.nodes, f as int, link_of(a).0) {
                    lemma_still_listed(before, actions@, from, a);
                } else {
                    let j = choose|j: int|
                        0 <= j < f + 1 && j < s.nodes.len() && #[trigger] s.nodes[j] == link_of(a).0;
                    assert(j == f);
                    assert(link_of(a).0 == sender);
                }
            }
        }
        f += 1;
    }
    proof {
        assert forall|a: AlpenglowAction| a is SendMessage && offered(s, a) implies #[trigger] lists(
            actions@,
            from,
            a,
        ) by {
            let sender = link_of(a).0;
            let j = choose|j: int| 0 <= j < s.nodes.len() && s.nodes[j] == sender;
            assert(s.nodes[j] == sender);
            assert(among_first(s.nodes, s.nodes.len() as int, sender));
        }
    }
}

/// Offers packet loss and a latency spike, after `FAILURE_ONSET` and while no failure is injected.
fn offer_failures(state: &AlpenglowState, actions: &mut Vec<AlpenglowAction>, Ghost(from): Ghost<int>)
    requires
        0 <= from <= old(actions)@.len(),
        all_offered(state.deep_view(), old(actions)@, from),
    ensures
        appended(old(actions)@, final(actions)@),
        all_offered(state.deep_view(), final(actions)@, from),
        forall|a: AlpenglowAction|
            a is InjectNetworkFailure && offered(state.deep_view(), a) ==> #[trigger] lists(
                final(actions)@,
                from,
                a,
            ),
{
    let ghost s = state.deep_view();
    let ghost given = actions@;
    let now = state.global_time;
    assert(actions@.subrange(0, given.len() as int) =~= given);
    if state.network_state.failure_injections.len() == 0 && now > FAILURE_ONSET {
        assert(s.network_state.failure_injections.len() == 0);
        let half = state.nodes.len() / 2;
        let loss = AlpenglowAction::InjectNetworkFailure {
            failure: NetworkFailure {
                failure_type: FailureType::PacketLoss { loss_rate: Fraction::from_micros(100_000) },
                start_time: now,
                duration: 20,
                affected_nodes: first_of(&state.nodes, half),
                severity: Fraction::from_micros(300_000),
            },
        };
        offer(actions, loss, Ghost(s), Ghost(from));
        let ghost middle = actions@;
        let spike = AlpenglowAction::InjectNetworkFailure {
            failure: NetworkFailure {
                failure_type: FailureType::LatencySpike { multiplier: Fraction::from_micros(3_000_000) },
                start_time: now,
                duration: 15,
                affected_nodes: first_of(&state.nodes, state.nodes.len()),
                severity: Fraction::from_micros(500_000),
            },
        };
        proof {
            assert(state.nodes@.subrange(0, state.nodes@.len() as int) =~= state.nodes@);
        }
        offer(actions, spike, Ghost(s), Ghost(from));
        proof {
            lemma_appended_twice(given, middle, actions@);
            lemma_still_listed(middle, actions@, from, loss);
            assert forall|a: AlpenglowAction| a is InjectNetworkFailure && offered(s, a) implies #[trigger] lists(
                actions@,
                from,
                a,
            ) by {
                match a {
                    AlpenglowAction::InjectNetworkFailure { failure } => {
                        if failure.deep_view() == offered_loss(s) {
                            lemma_lists_same(actions@, from, loss, a);
                        } else {
                            lemma_lists_same(actions@, from, spike, a);
                        }
                    },
                    _ => {},
                }
            }
        }
    } else {
        assert(s.network_state.failure_injections.len() == state.network_state.failure_injections@.len());
    }
}

/// The links between nodes of the registry that are congested together.
fn links_to_congest(state: &AlpenglowState) -> (links: Vec<(NodeId, NodeId)>)
    ensures
        links@ == congestion_links(state.deep_view().nodes, state.deep_view().nodes.len() as int),
{
    let ghost nodes = state.deep_view().nodes;
    let mut links: Vec<(NodeId, NodeId)> = Vec::new();
    let mut f: usize = 0;
    assert(nodes == state.nodes@);
    while f < state.nodes.len()
        invariant
            f <= state.nodes@.len(),
            nodes == state.nodes@,
            links@ == congestion_links(nodes, f as int),
        decreases state.nodes@.len() - f,
    {
        let ghost before = links@;
        let sender = state.nodes[f];
        let mut t: usize = 0;
        assert(links@ =~= before + links_from(nodes, f as int, 0));
        while t < state.nodes.len()
            invariant
                t <= state.nodes@.len(),
                f < state.nodes@.len(),
                nodes == state.nodes@,
                sender == nodes[f as int],
                links@ == before + links_from(nodes, f as int, t as int),
            decreases state.nodes@.len() - t,
        {
            let to = state.nodes[t];
            if sender != to && (sender as u64 + to as u64) % 3 == 0 {
                links.push((sender, to));
                assert(links@ =~= before + links_from(nodes, f as int, t + 1));
            }
            t += 1;
        }
        f += 1;
    }
    links
}

/// Offers congestion every `CONGESTION_PERIOD` ticks, where there are links to congest.
fn offer_congestion(state: &AlpenglowState, actions: &mut Vec<AlpenglowAction>, Ghost(from): Ghost<int>)
    requires
        0 <= from <= old(actions)@.len(),
        all_offered(state.deep_view(), old(actions)@, from),
    ensures
        appended(old(actions)@, final(actions)@),
        all_offered(state.deep_view(), final(actions)@, from),
        forall|a: AlpenglowAction|
            a is SimulateCongestion && offered(state.deep_view(), a) ==> #[trigger] lists(
                final(actions)@,
                from,
                a,
            ),
{
    let ghost s = state.deep_view();
    let ghost given = actions@;
    assert(actions@.subrange(0, given.len() as int) =~= given);
    if state.global_time % CONGESTION_PERIOD == 0 {
        let links = links_to_congest(state);
        if links.len() > 0 {
            let congestion = AlpenglowAction::SimulateCongestion { links, intensity: Fraction::from_micros(900_000) };
            offer(actions, congestion, Ghost(s), Ghost(from));
            proof {
                assert forall|a: AlpenglowAction|
                    a is SimulateCongestion && offered(s, a) implies #[trigger] lists(actions@, from, a) by {
                    lemma_lists_same(actions@, from, congestion, a);
                }
            }
        }
    }
}

/// Offers a new latency model every `LATENCY_UPDATE_PERIOD` ticks.
fn offer_latency_update(state: &AlpenglowState, actions: &mut Vec<AlpenglowAction>, Ghost(from): Ghost<int>)
    requires
        0 <= from <= old(actions)@.len(),
        all_offered(state.deep_view(), old(actions)@, from),
    ensures
        appended(old(actions)@, final(actions)@),
        all_offered(state.deep_view(), final(actions)@, from),
        forall|a: AlpenglowAction|
            a is UpdateLatencyModel && offered(state.deep_view(), a) ==> #[trigger] lists(
                final(actions)@,
                from,
                a,
            ),
{
    let ghost s = state.deep_view();
    let ghost given = actions@;
    assert(actions@.subrange(0, given.len() as int) =~= given);
    if state.global_time % LATENCY_UPDATE_PERIOD == 0 {
        let update = AlpenglowAction::UpdateLatencyModel {
            new_model: LatencyModel::Normal { mean_ms: 100, std_dev_ms: 25 },
        };
        offer(actions, update, Ghost(s), Ghost(from));
        proof {
            assert forall|a: AlpenglowAction|
                a is UpdateLatencyModel && offered(s, a) implies #[trigger] lists(actions@, from, a) by {
                lemma_lists_same(actions@, from, update, a);
            }
        }
    }
}

/// The place of an action's kind in the order in which the kinds are
/// offered; the number of offered kinds for a kind that is never offered.
pub open spec fn turn(action: AlpenglowAction) -> int {
    match action {
        AlpenglowAction::AdvanceTime { .. } => 0,
        AlpenglowAction::Vote { .. } => 1,
        AlpenglowAction::ByzantineVote { .. } => 1,
        AlpenglowAction::Certify { .. } => 2,
        AlpenglowAction::Timeout { .. } => 3,
        AlpenglowAction::SkipCert { .. } => 4,
        AlpenglowAction::NetworkPartition { .. } => 5,
        AlpenglowAction::HealPartition => 5,
        AlpenglowAction::FormCoalition { .. } => 6,
        AlpenglowAction::CoordinateAttack { .. } => 7,
        AlpenglowAction::AdaptStrategy { .. } => 8,
        AlpenglowAction::DeliverMessage { .. } => 9,
        AlpenglowAction::SendMessage { .. } => 10,
        AlpenglowAction::InjectNetworkFailure { .. } => 11,
        AlpenglowAction::SimulateCongestion { .. } => 12,
        AlpenglowAction::UpdateLatencyModel { .. } => 13,
        _ => 14,
    }
}

/// Whether `actions` lists, from `from` on, every action offered in `s` whose turn comes before `turns`.
pub open spec fn covered(s: StateView, actions: Seq<AlpenglowAction>, from: int, turns: int) -> bool {
    forall|a: AlpenglowAction| offered(s, a) && turn(a) < turns ==> #[trigger] lists(actions, from, a)
}

/// A list that covers the turns before `turns` covers one turn more once
/// the offered actions of that turn are appended.
pub proof fn lemma_covered_more(
    s: StateView,
    before: Seq<AlpenglowAction>,
    after: Seq<AlpenglowAction>,
    from: int,
    turns: int,
)
    requires
        0 <= from,
        appended(before, after),
        covered(s, before, from, turns),
        forall|a: AlpenglowAction| offered(s, a) && turn(a) == turns ==> #[trigger] lists(after, from, a),
    ensures
        covered(s, after, from, turns + 1),
{
    assert forall|a: AlpenglowAction| offered(s, a) && turn(a) < turns + 1 implies #[trigger] lists(
        after,
        from,
        a,
    ) by {
        if turn(a) < turns {
            lemma_still_listed(before, after, from, a);
        }
    }
}

impl AlpenglowState {
    /// Appends to `actions` the actions on the network that the model
    /// offers in `state`: the deliveries, what the nodes may send, the
    /// failures, the congestion and the change of the latency model.
    fn generate_network_actions(state: &AlpenglowState, actions: &mut Vec<AlpenglowAction>, Ghost(from): Ghost<int>)
        requires
            state.wf(),
            0 <= from <= old(actions)@.len(),
            all_offered(state.deep_view(), old(actions)@, from),
            covered(state.deep_view(), old(actions)@, from, 9),
        ensures
            appended(old(actions)@, final(actions)@),
            all_offered(state.deep_view(), final(actions)@, from),
            covered(state.deep_view(), final(actions)@, from, 14),
    {
        let ghost s = state.deep_view();
        let ghost a8 = actions@;
        offer_deliveries(state, actions, Ghost(from));
        let ghost a9 = actions@;
        proof {
            lemma_covered_more(s, a8, a9, from, 9);
        }
        offer_sends(state, actions, Ghost(from));
        let ghost a10 = actions@;
        proof {
            lemma_covered_more(s, a9, a10, from, 10);
            lemma_appended_twice(a8, a9, a10);
        }
        offer_failures(state, actions, Ghost(from));
        let ghost a11 = actions@;
        proof {
            lemma_covered_more(s, a10, a11, from, 11);
            lemma_appended_twice(a8, a10, a11);
        }
        offer_congestion(state, actions, Ghost(from));
        let ghost a12 = actions@;
        proof {
            lemma_covered_more(s, a11, a12, from, 12);
            lemma_appended_twice(a8, a11, a12);
        }
        offer_latency_update(state, actions, Ghost(from));
        proof {
            lemma_covered_more(s, a12, actions@, from, 13);
            lemma_appended_twice(a8, a12, actions@);
        }
    }

    /// Appends to `actions` the actions that the model offers in `state`:
    /// all of them, and no others. The first is the tick of the clock.
    pub fn actions(&self, state: &AlpenglowState, actions: &mut Vec<AlpenglowAction>)
        requires
            state.wf(),
        ensures
            appended(old(actions)@, final(actions)@),
            final(actions)@.len() > old(actions)@.len(),
            final(actions)@[old(actions)@.len() as int] == (AlpenglowAction::AdvanceTime { delta: 1 }),
            all_offered(state.deep_view(), final(actions)@, old(actions)@.len() as int),
            forall|a: AlpenglowAction|
                offered(state.deep_view(), a) ==> #[trigger] lists(final(actions)@, old(actions)@.len() as int, a),
    {
        AlpenglowModel::new().actions(state, actions);
    }
}

impl AlpenglowModel {
    /// Appends to `actions` the actions that the model offers in `state`:
    /// all of them, and no others. The first is the tick of the clock.
    pub fn actions(&self, state: &AlpenglowState, actions: &mut Vec<AlpenglowAction>)
        requires
            state.wf(),
        ensures
            appended(old(actions)@, final(actions)@),
            final(actions)@.len() > old(actions)@.len(),
            final(actions)@[old(actions)@.len() as int] == (AlpenglowAction::AdvanceTime { delta: 1 }),
            all_offered(state.deep_view(), final(actions)@, old(actions)@.len() as int),
            forall|a: AlpenglowAction|
                offered(state.deep_view(), a) ==> #[trigger] lists(final(actions)@, old(actions)@.len() as int, a),
    {
        let ghost s = state.deep_view();
        let ghost given = actions@;
        let ghost from = actions@.len() as int;
        let tick = AlpenglowAction::AdvanceTime { delta: 1 };
        assert(actions@.subrange(0, from) =~= actions@);
        offer(actions, tick, Ghost(s), Ghost(from));
        let ghost a0 = actions@;
        proof {
            assert forall|a: AlpenglowAction| offered(s, a) && turn(a) < 1 implies #[trigger] lists(a0, from, a) by {
                lemma_lists_same(a0, from, tick, a);
            }
        }
        let byzantine = offer_votes(state, actions, Ghost(from));
        let ghost a1 = actions@;
        proof {
            lemma_covered_more(s, a0, a1, from, 1);
            lemma_appended_twice(given, a0, a1);
        }
        offer_certifications(state, actions, Ghost(from));
        let ghost a2 = actions@;
        proof {
            lemma_covered_more(s, a1, a2, from, 2);
            lemma_appended_twice(given, a1, a2);
        }
        offer_timeouts(state, actions, Ghost(from));
        let ghost a3 = actions@;
        proof {
            lemma_covered_more(s, a2, a3, from, 3);
            lemma_appended_twice(given, a2, a3);
        }
        offer_skips(state, actions, Ghost(from));
        let ghost a4 = actions@;
        proof {
            lemma_covered_more(s, a3, a4, from, 4);
            lemma_appended_twice(given, a3, a4);
        }
        offer_partition(state, actions, Ghost(from));
        let ghost a5 = actions@;
        proof {
            lemma_covered_more(s, a4, a5, from, 5);
            lemma_appended_twice(given, a4, a5);
        }
        offer_coalitions(state, &byzantine, actions, Ghost(from));
        let ghost a6 = actions@;
        proof {
            lemma_covered_more(s, a5, a6, from, 6);
            lemma_appended_twice(given, a5, a6);
        }
        offer_coordinations(state, actions, Ghost(from));
        let ghost a7 = actions@;
        proof {
            lemma_covered_more(s, a6, a7, from, 7);
            lemma_appended_twice(given, a6, a7);
        }
        offer_adaptations(state, &byzantine, actions, Ghost(from));
        let ghost a8 = actions@;
        proof {
            lemma_covered_more(s, a7, a8, from, 8);
            lemma_appended_twice(given, a7, a8);
        }
        AlpenglowState::generate_network_actions(state, actions, Ghost(from));
        proof {
            lemma_appended_twice(given, a8, actions@);
            lemma_appended_twice(a0, a1, a2);
            lemma_appended_twice(a0, a2, a3);
            lemma_appended_twice(a0, a3, a4);
            lemma_appended_twice(a0, a4, a5);
            lemma_appended_twice(a0, a5, a6);
            lemma_appended_twice(a0, a6, a7);
            lemma_appended_twice(a0, a7, a8);
            lemma_appended_twice(a0, a8, actions@);
            assert(actions@.subrange(0, a0.len() as int)[from] == actions@[from]);
        }
    }
}

} // verus!
