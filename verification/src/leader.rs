//! Leader rotation over windows of slots.

use vstd::prelude::*;
use crate::sorted_map::SortedMap;
use crate::state::{AlpenglowState, StateView};
use crate::types::{NodeId, Slot, StakeAmount};

verus! {

/// The number of slots in a window of a fresh state.
pub const DEFAULT_WINDOW_SIZE: u32 = 10;

/// The finality depth of a fresh state.
pub const DEFAULT_FINALITY_DEPTH: u32 = 2;

/// The most entries that the rotation history keeps.
pub const HISTORY_CAP: usize = 100;

/// A run of slots that share one leader schedule.
#[derive(Clone, Debug, PartialEq, Hash)]
pub struct WindowInfo {
    pub window_start: Slot,
    pub window_size: u32,
    /// How many further slots confirm a slot.
    pub finality_depth: u32,
    /// The leaders of the window, slot by slot, taken round and round.
    pub leader_schedule: Vec<NodeId>,
}

#[verifier::ext_equal]
pub struct WindowView {
    pub window_start: Slot,
    pub window_size: u32,
    pub finality_depth: u32,
    pub leader_schedule: Seq<NodeId>,
}

impl DeepView for WindowInfo {
    type V = WindowView;

    open spec fn deep_view(&self) -> WindowView {
        WindowView {
            window_start: self.window_start,
            window_size: self.window_size,
            finality_depth: self.finality_depth,
            leader_schedule: self.leader_schedule@,
        }
    }
}

#[derive(Clone, Debug, PartialEq, Hash)]
pub struct LeaderRotation {
    pub current_leader: NodeId,
    pub current_slot: Slot,
    /// Slots between two changes of leader.
    pub rotation_interval: u32,
    /// The latest rotations, oldest first.
    pub leader_history: Vec<(Slot, NodeId)>,
}

#[verifier::ext_equal]
pub struct RotationView {
    pub current_leader: NodeId,
    pub current_slot: Slot,
    pub rotation_interval: u32,
    pub leader_history: Seq<(Slot, NodeId)>,
}

impl DeepView for LeaderRotation {
    type V = RotationView;

    open spec fn deep_view(&self) -> RotationView {
        RotationView {
            current_leader: self.current_leader,
            current_slot: self.current_slot,
            rotation_interval: self.rotation_interval,
            leader_history: self.leader_history@,
        }
    }
}

/// The key by which a window starting at `seed` orders `node`:
/// `seed * stake * node mod 1000`, with stake zero where none is recorded.
pub open spec fn schedule_key(stakes: Map<NodeId, StakeAmount>, seed: Slot, node: NodeId) -> int {
    let stake = if stakes.contains_key(node) {
        stakes[node]
    } else {
        0
    };
    (seed * stake * node) % 1000
}

/// `list` with `x` put in behind every entry whose key is not below that of `x`.
pub open spec fn placed(list: Seq<NodeId>, stakes: Map<NodeId, StakeAmount>, seed: Slot, x: NodeId) -> Seq<NodeId>
    decreases list.len(),
{
    if list.len() == 0 {
        seq![x]
    } else if schedule_key(stakes, seed, list.last()) >= schedule_key(stakes, seed, x) {
        list.push(x)
    } else {
        placed(list.drop_last(), stakes, seed, x).push(list.last())
    }
}

/// The first `n` of `nodes` in descending order of their keys; nodes with
/// equal keys stay in the order of the registry.
pub open spec fn schedule_prefix(
    nodes: Seq<NodeId>,
    stakes: Map<NodeId, StakeAmount>,
    seed: Slot,
    n: int,
) -> Seq<NodeId>
    decreases n,
{
    if n <= 0 {
        Seq::empty()
    } else {
        placed(schedule_prefix(nodes, stakes, seed, n - 1), stakes, seed, nodes[n - 1])
    }
}

/// The leader schedule of the window that starts at `seed`.
pub open spec fn leader_schedule_for(nodes: Seq<NodeId>, stakes: Map<NodeId, StakeAmount>, seed: Slot) -> Seq<
    NodeId,
> {
    schedule_prefix(nodes, stakes, seed, nodes.len() as int)
}

/// Whether the keys of `list` never rise from left to right.
pub open spec fn descending(list: Seq<NodeId>, stakes: Map<NodeId, StakeAmount>, seed: Slot) -> bool {
    forall|i: int, j: int|
        0 <= i < j < list.len() ==> schedule_key(stakes, seed, list[i]) >= schedule_key(stakes, seed, list[j])
}

/// Placing at the scan position: every entry from `p` on has a smaller key
/// than `x`, and the entry before `p`, if any, has not.
pub proof fn lemma_placed_at(list: Seq<NodeId>, stakes: Map<NodeId, StakeAmount>, seed: Slot, x: NodeId, p: int)
    requires
        0 <= p <= list.len(),
        forall|j: int| p <= j < list.len() ==> schedule_key(stakes, seed, list[j]) < schedule_key(stakes, seed, x),
        p > 0 ==> schedule_key(stakes, seed, list[p - 1]) >= schedule_key(stakes, seed, x),
    ensures
        placed(list, stakes, seed, x) == list.insert(p, x),
    decreases list.len(),
{
    if list.len() == 0 {
        assert(list.insert(p, x) =~= seq![x]);
    } else if p == list.len() {
        assert(list.insert(p, x) =~= list.push(x));
    } else {
        lemma_placed_at(list.drop_last(), stakes, seed, x, p);
        assert(list.drop_last().insert(p, x).push(list.last()) =~= list.insert(p, x));
    }
}

/// Placing keeps a descending list descending and adds exactly `x`.
pub proof fn lemma_placed_sorted(list: Seq<NodeId>, stakes: Map<NodeId, StakeAmount>, seed: Slot, x: NodeId)
    requires
        descending(list, stakes, seed),
    ensures
        descending(placed(list, stakes, seed, x), stakes, seed),
        placed(list, stakes, seed, x).len() == list.len() + 1,
        placed(list, stakes, seed, x).to_multiset() == list.to_multiset().insert(x),
    decreases list.len(),
{
    broadcast use vstd::seq_lib::group_to_multiset_ensures;

    if list.len() == 0 {
        assert(list =~= Seq::empty());
    } else if schedule_key(stakes, seed, list.last()) >= schedule_key(stakes, seed, x) {
    } else {
        let rest = list.drop_last();
        lemma_placed_sorted(rest, stakes, seed, x);
        let inner = placed(rest, stakes, seed, x);
        let out = inner.push(list.last());
        assert(list =~= rest.push(list.last()));
        assert forall|i: int, j: int| 0 <= i < j < out.len() implies schedule_key(stakes, seed, out[i])
            >= schedule_key(stakes, seed, out[j]) by {
            if j == out.len() - 1 {
                // out[i] is x or an entry of rest; both have keys above list.last()
                assert(inner.to_multiset().count(out[i]) > 0) by {
                    assert(inner.contains(inner[i]));
                }
                if out[i] != x {
                    assert(rest.to_multiset().count(out[i]) > 0);
                    assert(rest.contains(out[i]));
                    let k = choose|k: int| 0 <= k < rest.len() && rest[k] == out[i];
                    assert(list[k] == out[i]);
                }
            }
        }
    }
}

/// The schedule of a window is the registry, reordered, in descending order of the keys.
pub proof fn lemma_schedule_sorted(nodes: Seq<NodeId>, stakes: Map<NodeId, StakeAmount>, seed: Slot, n: int)
    requires
        0 <= n <= nodes.len(),
    ensures
        descending(schedule_prefix(nodes, stakes, seed, n), stakes, seed),
        schedule_prefix(nodes, stakes, seed, n).len() == n,
        schedule_prefix(nodes, stakes, seed, n).to_multiset() == nodes.subrange(0, n).to_multiset(),
    decreases n,
{
    broadcast use vstd::seq_lib::group_to_multiset_ensures;

    if n > 0 {
        lemma_schedule_sorted(nodes, stakes, seed, n - 1);
        lemma_placed_sorted(schedule_prefix(nodes, stakes, seed, n - 1), stakes, seed, nodes[n - 1]);
        assert(nodes.subrange(0, n) =~= nodes.subrange(0, n - 1).push(nodes[n - 1]));
    } else {
        assert(nodes.subrange(0, 0) =~= Seq::<NodeId>::empty());
    }
}

impl StateView {
    /// Whether `slot` has a leader: it lies in or after the window, and the schedule is not empty.
    pub open spec fn leader_defined(self, slot: Slot) -> bool {
        slot >= self.current_window.window_start && self.current_window.leader_schedule.len() > 0
    }

    /// The leader of `slot`: the schedule taken round and round from the start of the window.
    pub open spec fn leader_for_slot(self, slot: Slot) -> NodeId {
        self.current_window.leader_schedule[(slot - self.current_window.window_start) % (
        self.current_window.leader_schedule.len() as int)]
    }

    /// The state after the leader of `slot` has taken over. The history
    /// keeps its latest `HISTORY_CAP` entries. Nothing changes where `slot`
    /// has no leader.
    pub open spec fn rotate_leader(self, slot: Slot) -> StateView {
        if !self.leader_defined(slot) {
            self
        } else {
            let leader = self.leader_for_slot(slot);
            let grown = self.leader_rotation.leader_history.push((slot, leader));
            StateView {
                leader_rotation: RotationView {
                    current_leader: leader,
                    current_slot: slot,
                    rotation_interval: self.leader_rotation.rotation_interval,
                    leader_history: if grown.len() > HISTORY_CAP {
                        grown.subrange(1, grown.len() as int)
                    } else {
                        grown
                    },
                },
                ..self
            }
        }
    }

    /// Whether `slot` lies behind the current window.
    pub open spec fn window_over(self, slot: Slot) -> bool {
        slot >= self.current_window.window_start + self.current_window.window_size
    }

    /// The state after a window rollover at `slot`: a new window starts
    /// there, with a schedule of its own. Nothing changes while `slot` lies
    /// in the current window.
    pub open spec fn update_window(self, slot: Slot, window_size: u32, finality_depth: u32) -> StateView {
        if self.window_over(slot) {
            StateView {
                current_window: WindowView {
                    window_start: slot,
                    window_size,
                    finality_depth,
                    leader_schedule: leader_schedule_for(self.nodes, self.stake_distribution, slot),
                },
                ..self
            }
        } else {
            self
        }
    }
}

/// The key by which a window starting at `seed` orders `node`.
fn key_of(stakes: &SortedMap<NodeId, StakeAmount>, seed: Slot, node: NodeId) -> (k: u64)
    requires
        stakes.wf(),
    ensures
        k == schedule_key(stakes@, seed, node),
{
    let stake: u128 = match stakes.get(&node) {
        Some(v) => *v as u128,
        None => 0,
    };
    let a: u128 = seed as u128;
    let c: u128 = node as u128;
    assert(a * stake <= 0xFFFF_FFFF * 0xFFFF_FFFF_FFFF_FFFF) by (nonlinear_arith)
        requires
            a <= 0xFFFF_FFFF,
            stake <= 0xFFFF_FFFF_FFFF_FFFF,
    ;
    let ab: u128 = a * stake;
    assert(ab * c <= (0xFFFF_FFFF * 0xFFFF_FFFF_FFFF_FFFF) * 0xFFFF_FFFF) by (nonlinear_arith)
        requires
            ab <= 0xFFFF_FFFF * 0xFFFF_FFFF_FFFF_FFFF,
            c <= 0xFFFF_FFFF,
    ;
    ((ab * c) % 1000) as u64
}

impl AlpenglowState {
    /// The leader of `slot`, where it has one.
    pub fn try_leader_for_slot(&self, slot: Slot) -> (r: Option<NodeId>)
        ensures
            r == if self.deep_view().leader_defined(slot) {
                Some(self.deep_view().leader_for_slot(slot))
            } else {
                None
            },
    {
        let n = self.current_window.leader_schedule.len();
        if slot >= self.current_window.window_start && n > 0 {
            let offset: usize = (slot - self.current_window.window_start) as usize;
            Some(self.current_window.leader_schedule[offset % n])
        } else {
            None
        }
    }

    /// The leader of `slot`: `leader_schedule[(slot - window_start) mod |leader_schedule|]`.
    pub fn get_leader_for_slot(&self, slot: Slot) -> (leader: NodeId)
        requires
            self.deep_view().leader_defined(slot),
        ensures
            leader == self.deep_view().leader_for_slot(slot),
    {
        let n = self.current_window.leader_schedule.len();
        let offset: usize = (slot - self.current_window.window_start) as usize;
        self.current_window.leader_schedule[offset % n]
    }

    /// Hands the lead to the leader of `new_slot` and logs the rotation.
    pub fn rotate_leader(&mut self, new_slot: Slot)
        requires
            old(self).wf(),
        ensures
            final(self).wf(),
            final(self).deep_view() == old(self).deep_view().rotate_leader(new_slot),
    {
        match self.try_leader_for_slot(new_slot) {
            None => {},
            Some(new_leader) => {
                self.leader_rotation.current_leader = new_leader;
                self.leader_rotation.current_slot = new_slot;
                self.leader_rotation.leader_history.push((new_slot, new_leader));
                if self.leader_rotation.leader_history.len() > HISTORY_CAP {
                    self.leader_rotation.leader_history.remove(0);
                }
                assert(self.deep_view().leader_rotation.leader_history =~= old(
                    self,
                ).deep_view().rotate_leader(new_slot).leader_rotation.leader_history);
                assert(self.deep_view() =~= old(self).deep_view().rotate_leader(new_slot));
            },
        }
    }

    /// The leader schedule of the window that starts at `window_start`:
    /// the registry in descending order of `window_start * stake * id mod
    /// 1000`, equal keys in the order of the registry.
    pub fn generate_leader_schedule_for_window(&self, window_start: Slot) -> (schedule: Vec<NodeId>)
        requires
            self.stake_distribution.wf(),
        ensures
            schedule@ == leader_schedule_for(self.deep_view().nodes, self.deep_view().stake_distribution, window_start),
            schedule@.len() == self.nodes@.len(),
            schedule@.to_multiset() == self.nodes@.to_multiset(),
            descending(schedule@, self.stake_distribution@, window_start),
    {
        let ghost stakes = self.stake_distribution@;
        let mut schedule: Vec<NodeId> = Vec::new();
        let mut i: usize = 0;
        while i < self.nodes.len()
            invariant
                i <= self.nodes@.len(),
                self.stake_distribution.wf(),
                stakes == self.stake_distribution@,
                schedule@ == schedule_prefix(self.nodes@, stakes, window_start, i as int),
                schedule@.len() == i,
            decreases self.nodes@.len() - i,
        {
            let x = self.nodes[i];
            let kx = key_of(&self.stake_distribution, window_start, x);
            let mut p: usize = schedule.len();
            while p > 0 && key_of(&self.stake_distribution, window_start, schedule[p - 1]) < kx
                invariant
                    p <= schedule@.len(),
                    self.stake_distribution.wf(),
                    stakes == self.stake_distribution@,
                    kx == schedule_key(stakes, window_start, x),
                    forall|j: int|
                        p <= j < schedule@.len() ==> schedule_key(stakes, window_start, schedule@[j]) < kx,
                decreases p,
            {
                p -= 1;
            }
            proof {
                lemma_placed_at(schedule@, stakes, window_start, x, p as int);
            }
            schedule.insert(p, x);
            i += 1;
        }
        proof {
            lemma_schedule_sorted(self.nodes@, stakes, window_start, self.nodes@.len() as int);
            assert(self.nodes@.subrange(0, self.nodes@.len() as int) =~= self.nodes@);
        }
        schedule
    }

    /// Starts a new window at `new_slot` where that lies behind the current one.
    pub fn update_window(&mut self, new_slot: Slot, window_size: u32, finality_depth: u32)
        requires
            old(self).wf(),
        ensures
            final(self).wf(),
            final(self).deep_view() == old(self).deep_view().update_window(new_slot, window_size, finality_depth),
    {
        let end: u64 = self.current_window.window_start as u64 + self.current_window.window_size as u64;
        if new_slot as u64 >= end {
            let schedule = self.generate_leader_schedule_for_window(new_slot);
            self.current_window = WindowInfo {
                window_start: new_slot,
                window_size,
                finality_depth,
                leader_schedule: schedule,
            };
            assert(self.deep_view() =~= old(self).deep_view().update_window(
                new_slot,
                window_size,
                finality_depth,
            ));
        }
    }
}

} // verus!
