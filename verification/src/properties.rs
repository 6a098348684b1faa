//! The properties that an exploration of the model looks for in its states.
//!
//! Each property is a predicate on the model of a state, and a function
//! that evaluates it on a state.

use vstd::prelude::*;
use crate::state::{AlpenglowState, StateView, BYZANTINE_PERCENT, FAST_QUORUM_PERCENT};
use crate::types::{BlockId, CertificateView, NodeId, Slot, Vote, VotePath};

verus! {

/// The length of a slot on the clock of finalization times, in milliseconds.
pub const SLOT_MILLIS: u64 = 1000;

/// The time within which a slot is finalized while 80% of the stake responds, in milliseconds.
pub const DELTA_FAST: u64 = 500;

/// The time within which a slot is finalized while 60% of the stake responds, in milliseconds.
pub const DELTA_SLOW: u64 = 1000;

/// The length of the rotation history from which leader fairness is asked for.
pub const FAIRNESS_HISTORY: usize = 10;

/// Whether the votes of `cert` are all for one block.
pub open spec fn single_block(cert: CertificateView) -> bool {
    forall|v: Vote, w: Vote| cert.votes.contains(v) && cert.votes.contains(w) ==> v.block == w.block
}

/// How often `leader` led among the first `n` entries of `history`.
pub open spec fn times_led(history: Seq<(Slot, NodeId)>, leader: NodeId, n: int) -> int
    decreases n,
{
    if n <= 0 {
        0
    } else {
        times_led(history, leader, n - 1) + if history[n - 1].1 == leader {
            1int
        } else {
            0int
        }
    }
}

/// Whether a list of votes holds two votes for the same slot and path and for two blocks.
pub open spec fn equivocates(list: Seq<Vote>) -> bool {
    exists|i: int, j: int|
        0 <= i < list.len() && 0 <= j < list.len() && (#[trigger] list[i]).slot == (#[trigger] list[j]).slot
            && list[i].path == list[j].path && list[i].block != list[j].block
}

/// The bound on the time that a slot takes to finalize: `min(DELTA_FAST, 2 * DELTA_SLOW)`.
pub open spec fn finalization_bound() -> int {
    if DELTA_FAST <= 2 * DELTA_SLOW {
        DELTA_FAST as int
    } else {
        2 * DELTA_SLOW
    }
}

impl StateView {
    /// Safety: certificates for the same slot certify the same block.
    pub open spec fn stake_weighted_safety(self) -> bool {
        forall|a: Slot, b: Slot|
            self.certificates.contains_key(a) && self.certificates.contains_key(b) && (
            #[trigger] self.certificates[a]).slot == (#[trigger] self.certificates[b]).slot
                ==> self.certificates[a].block == self.certificates[b].block
    }

    /// Whether every certificate holds votes for one block only.
    pub open spec fn certificates_single_block(self) -> bool {
        forall|slot: Slot|
            self.certificates.contains_key(slot) ==> single_block(#[trigger] self.certificates[slot])
    }

    /// Byzantine resilience: while the Byzantine stake is within the
    /// threshold, every certificate holds votes for one block only.
    pub open spec fn byzantine_resilience(self) -> bool {
        self.byzantine_stake() <= self.byzantine_threshold() ==> self.certificates_single_block()
    }

    /// Whether there is no certificate, or one on the fast path.
    pub open spec fn fast_certificate_or_none(self) -> bool {
        self.certificates.dom() == Set::<Slot>::empty() || exists|slot: Slot|
            self.certificates.contains_key(slot) && (#[trigger] self.certificates[slot]).path
                == VotePath::Fast
    }

    /// Fast-path efficiency: while the honest stake reaches the fast
    /// quorum, there is no certificate yet, or one on the fast path.
    pub open spec fn fast_path_efficiency(self) -> bool {
        self.honest_stake() >= self.fast_quorum() ==> self.fast_certificate_or_none()
    }

    /// Whether `slot` is settled: certified or skipped.
    pub open spec fn settled(self, slot: Slot) -> bool {
        self.certificates.contains_key(slot) || self.skip_certs.contains_key(slot)
    }

    /// Progress: every slot before the current one is settled.
    pub open spec fn progress(self) -> bool {
        forall|slot: Slot| 1 <= slot < self.current_slot ==> #[trigger] self.settled(slot)
    }

    /// No equivocation of honest nodes: no vote list of an honest node
    /// holds votes for two blocks in the same slot on the same path.
    pub open spec fn honest_no_equivocation(self) -> bool {
        forall|node: NodeId, slot: Slot|
            self.is_honest(node) && #[trigger] self.has_vote_list(node, slot) ==> !equivocates(
                self.votes[node][slot],
            )
    }

    /// Whether `slot` was finalized within the bound, counted from the
    /// start of the slot; a slot without a finalization time is in time.
    pub open spec fn finalized_in_time(self, slot: Slot) -> bool {
        self.finalization_times.contains_key(slot) ==> self.finalization_times[slot] - slot * SLOT_MILLIS
            <= finalization_bound()
    }

    /// Bounded finalization: every slot with a finalization time was finalized within the bound.
    pub open spec fn bounded_finalization_time(self) -> bool {
        forall|slot: Slot| #[trigger] self.finalization_times.contains_key(slot) ==> self.finalized_in_time(slot)
    }

    /// Rotor availability: every known block can be put together again.
    pub open spec fn erasure_block_availability(self) -> bool {
        forall|block: BlockId| #[trigger]
            self.erasure_coded_blocks.contains_key(block) ==> self.can_reconstruct(block)
    }

    /// Leader fairness: once the history has `FAIRNESS_HISTORY` entries,
    /// no node led in more than half of them.
    pub open spec fn leader_rotation_fairness(self) -> bool {
        let history = self.leader_rotation.leader_history;
        history.len() >= FAIRNESS_HISTORY ==> forall|i: int|
            0 <= i < history.len() ==> times_led(history, (#[trigger] history[i]).1, history.len() as int)
                <= history.len() / 2
    }
}

/// The properties of the model.
#[derive(Clone, Copy, Debug, PartialEq, Eq, Structural)]
pub enum ProtocolProperty {
    StakeWeightedSafety,
    ByzantineResilience,
    FastPathEfficiency,
    Progress,
    HonestNoEquivocation,
    BoundedFinalizationTime,
    ErasureBlockAvailability,
    LeaderRotationFairness,
}

impl ProtocolProperty {
    /// What the property says of a state.
    pub open spec fn holds_of(self, s: StateView) -> bool {
        match self {
            ProtocolProperty::StakeWeightedSafety => s.stake_weighted_safety(),
            ProtocolProperty::ByzantineResilience => s.byzantine_resilience(),
            ProtocolProperty::FastPathEfficiency => s.fast_path_efficiency(),
            ProtocolProperty::Progress => s.progress(),
            ProtocolProperty::HonestNoEquivocation => s.honest_no_equivocation(),
            ProtocolProperty::BoundedFinalizationTime => s.bounded_finalization_time(),
            ProtocolProperty::ErasureBlockAvailability => s.erasure_block_availability(),
            ProtocolProperty::LeaderRotationFairness => s.leader_rotation_fairness(),
        }
    }

    /// The name under which the property is reported.
    pub fn name(&self) -> (n: &'static str)
        ensures
            n@ == match *self {
                ProtocolProperty::StakeWeightedSafety => "stake_weighted_safety"@,
                ProtocolProperty::ByzantineResilience => "byzantine_resilience"@,
                ProtocolProperty::FastPathEfficiency => "fast_path_efficiency"@,
                ProtocolProperty::Progress => "progress"@,
                ProtocolProperty::HonestNoEquivocation => "honest_no_equivocation"@,
                ProtocolProperty::BoundedFinalizationTime => "bounded_finalization_time"@,
                ProtocolProperty::ErasureBlockAvailability => "erasure_block_availability"@,
                ProtocolProperty::LeaderRotationFairness => "leader_rotation_fairness"@,
            },
    {
        match self {
            ProtocolProperty::StakeWeightedSafety => "stake_weighted_safety",
            ProtocolProperty::ByzantineResilience => "byzantine_resilience",
            ProtocolProperty::FastPathEfficiency => "fast_path_efficiency",
            ProtocolProperty::Progress => "progress",
            ProtocolProperty::HonestNoEquivocation => "honest_no_equivocation",
            ProtocolProperty::BoundedFinalizationTime => "bounded_finalization_time",
            ProtocolProperty::ErasureBlockAvailability => "erasure_block_availability",
            ProtocolProperty::LeaderRotationFairness => "leader_rotation_fairness",
        }
    }
}

/// Whether `list` holds two votes for the same slot and path and for two blocks.
fn list_equivocates(list: &Vec<Vote>) -> (b: bool)
    ensures
        b == equivocates(list@),
{
    let mut i: usize = 0;
    while i < list.len()
        invariant
            i <= list@.len(),
            forall|a: int, c: int|
                0 <= a < i && 0 <= c < list@.len() ==> !((#[trigger] list@[a]).slot == (#[trigger] list@[c]).slot
                    && list@[a].path == list@[c].path && list@[a].block != list@[c].block),
        decreases list@.len() - i,
    {
        let mut j: usize = 0;
        while j < list.len()
            invariant
                i < list@.len(),
                j <= list@.len(),
                forall|c: int|
                    0 <= c < j ==> !(list@[i as int].slot == (#[trigger] list@[c]).slot && list@[i as int].path
                        == list@[c].path && list@[i as int].block != list@[c].block),
            decreases list@.len() - j,
        {
            if list[i].slot == list[j].slot && list[i].path == list[j].path && list[i].block != list[j].block {
                return true;
            }
            j += 1;
        }
        i += 1;
    }
    proof {
        if equivocates(list@) {
            let (a, c) = choose|a: int, c: int|
                0 <= a < list@.len() && 0 <= c < list@.len() && (#[trigger] list@[a]).slot == (
                #[trigger] list@[c]).slot && list@[a].path == list@[c].path && list@[a].block != list@[c].block;
            assert(list@[a].slot == list@[c].slot);
        }
    }
    false
}

/// How often `leader` led in `history`.
fn count_led(history: &Vec<(Slot, NodeId)>, leader: NodeId) -> (c: usize)
    ensures
        c == times_led(history@, leader, history@.len() as int),
{
    let mut c: usize = 0;
    let mut i: usize = 0;
    while i < history.len()
        invariant
            i <= history@.len(),
            c <= i,
            c == times_led(history@, leader, i as int),
        decreases history@.len() - i,
    {
        if history[i].1 == leader {
            c += 1;
        }
        i += 1;
    }
    c
}

impl AlpenglowState {
    /// Whether certificates for the same slot certify the same block.
    pub fn stake_weighted_safety(&self) -> (b: bool)
        requires
            self.wf(),
        ensures
            b == self.deep_view().stake_weighted_safety(),
    {
        let ghost certs = self.certificates.deep_view();
        let ghost keys = self.certificates.key_seq();
        proof {
            self.certificates.lemma_deep_view();
            self.certificates.lemma_entries();
        }
        let n = self.certificates.len();
        let mut i: usize = 0;
        while i < n
            invariant
                i <= n,
                n == keys.len(),
                self.wf(),
                certs == self.certificates.deep_view(),
                keys == self.certificates.key_seq(),
                forall|a: int, c: int|
                    0 <= a < i && 0 <= c < n && (#[trigger] certs[keys[a]]).slot == (#[trigger] certs[keys[c]]).slot
                        ==> certs[keys[a]].block == certs[keys[c]].block,
            decreases n - i,
        {
            let first = self.certificates.value_at(i);
            let mut j: usize = 0;
            while j < n
                invariant
                    i < n,
                    j <= n,
                    n == keys.len(),
                    self.wf(),
                    certs == self.certificates.deep_view(),
                    keys == self.certificates.key_seq(),
                    *first == self.certificates.val_seq()[i as int],
                    forall|c: int|
                        0 <= c < j && certs[keys[i as int]].slot == (#[trigger] certs[keys[c]]).slot
                            ==> certs[keys[i as int]].block == certs[keys[c]].block,
                decreases n - j,
            {
                let second = self.certificates.value_at(j);
                proof {
                    self.certificates.lemma_deep_view();
                    assert(certs[keys[i as int]] == first.deep_view());
                    assert(certs[keys[j as int]] == second.deep_view());
                }
                if first.slot == second.slot && first.block != second.block {
                    proof {
                        self.certificates.lemma_entries();
                        assert(self.certificates@.contains_key(keys[i as int]));
                        assert(self.certificates@.contains_key(keys[j as int]));
                    }
                    return false;
                }
                j += 1;
            }
            i += 1;
        }
        proof {
            self.certificates.lemma_entries();
            assert forall|a: Slot, b: Slot|
                certs.contains_key(a) && certs.contains_key(b) && (#[trigger] certs[a]).slot == (
                #[trigger] certs[b]).slot implies certs[a].block == certs[b].block by {
                let ia = keys.index_of(a);
                let ib = keys.index_of(b);
                assert(keys[ia] == a && keys[ib] == b);
                assert(certs[keys[ia]].slot == certs[keys[ib]].slot);
            }
        }
        true
    }

    /// Whether every certificate holds votes for one block only.
    pub fn certificates_single_block(&self) -> (b: bool)
        requires
            self.wf(),
        ensures
            b == self.deep_view().certificates_single_block(),
    {
        let ghost certs = self.certificates.deep_view();
        let ghost keys = self.certificates.key_seq();
        proof {
            self.certificates.lemma_deep_view();
            self.certificates.lemma_entries();
        }
        let n = self.certificates.len();
        let mut i: usize = 0;
        while i < n
            invariant
                i <= n,
                n == keys.len(),
                self.wf(),
                certs == self.certificates.deep_view(),
                keys == self.certificates.key_seq(),
                forall|a: int| 0 <= a < i ==> single_block(#[trigger] certs[keys[a]]),
            decreases n - i,
        {
            let cert = self.certificates.value_at(i);
            proof {
                self.certificates.lemma_deep_view();
                self.certificates.lemma_entries();
                assert(certs[keys[i as int]] == cert.deep_view());
                assert(self.certificates@.contains_key(keys[i as int]));
            }
            let ghost items = cert.votes.item_seq();
            let m = cert.votes.len();
            let mut j: usize = 1;
            while j < m
                invariant
                    1 <= j,
                    m == items.len(),
                    items == cert.votes.item_seq(),
                    certs == self.deep_view().certificates,
                    certs.contains_key(keys[i as int]),
                    certs[keys[i as int]] == cert.deep_view(),
                    forall|c: int| 0 <= c < j && c < m ==> (#[trigger] items[c]).block == items[0].block,
                decreases m - j,
            {
                if cert.votes.item_at(j).block != cert.votes.item_at(0).block {
                    proof {
                        let c = cert.deep_view();
                        assert(items.contains(items[j as int]));
                        assert(items.contains(items[0]));
                        assert(c.votes.contains(items[j as int]));
                        assert(c.votes.contains(items[0]));
                        assert(items[j as int].block != items[0].block);
                        assert(!single_block(c));
                        assert(!single_block(certs[keys[i as int]]));
                    }
                    return false;
                }
                j += 1;
            }
            proof {
                assert forall|v: Vote, w: Vote| cert.votes@.contains(v) && cert.votes@.contains(w) implies v.block
                    == w.block by {
                    let a = choose|a: int| 0 <= a < items.len() && items[a] == v;
                    let c = choose|c: int| 0 <= c < items.len() && items[c] == w;
                    assert(items[a].block == items[0].block);
                    assert(items[c].block == items[0].block);
                }
                assert(single_block(cert.deep_view()));
            }
            i += 1;
        }
        proof {
            self.certificates.lemma_entries();
            assert forall|slot: Slot| certs.contains_key(slot) implies single_block(#[trigger] certs[slot]) by {
                let a = keys.index_of(slot);
                assert(keys[a] == slot);
                assert(single_block(certs[keys[a]]));
            }
        }
        true
    }

    /// Whether the Byzantine stake exceeds the threshold or every certificate holds votes for one block only.
    pub fn byzantine_resilience(&self) -> (b: bool)
        requires
            self.wf(),
        ensures
            b == self.deep_view().byzantine_resilience(),
    {
        let byzantine = self.status_stake_wide(true);
        let threshold = self.quorum_wide(BYZANTINE_PERCENT);
        if byzantine <= threshold {
            self.certificates_single_block()
        } else {
            true
        }
    }

    /// Whether there is no certificate, or one on the fast path.
    pub fn fast_certificate_or_none(&self) -> (b: bool)
        requires
            self.wf(),
        ensures
            b == self.deep_view().fast_certificate_or_none(),
    {
        let ghost certs = self.certificates.deep_view();
        let ghost keys = self.certificates.key_seq();
        proof {
            self.certificates.lemma_deep_view();
            self.certificates.lemma_entries();
        }
        let n = self.certificates.len();
        if n == 0 {
            proof {
                assert(certs.dom() =~= Set::<Slot>::empty()) by {
                    assert forall|k: Slot| !certs.contains_key(k) by {
                        if certs.contains_key(k) {
                            let a = keys.index_of(k);
                            assert(keys[a] == k);
                        }
                    }
                }
            }
            return true;
        }
        proof {
            assert(self.certificates@.contains_key(keys[0]));
            assert(certs.dom().contains(keys[0]));
        }
        let mut i: usize = 0;
        while i < n
            invariant
                i <= n,
                n == keys.len(),
                self.wf(),
                certs == self.certificates.deep_view(),
                keys == self.certificates.key_seq(),
                forall|a: int| 0 <= a < i ==> (#[trigger] certs[keys[a]]).path != VotePath::Fast,
            decreases n - i,
        {
            let cert = self.certificates.value_at(i);
            proof {
                self.certificates.lemma_deep_view();
                self.certificates.lemma_entries();
                assert(certs[keys[i as int]] == cert.deep_view());
                assert(self.certificates@.contains_key(keys[i as int]));
            }
            match cert.path {
                VotePath::Fast => {
                    return true;
                },
                VotePath::Slow => {},
            }
            i += 1;
        }
        proof {
            self.certificates.lemma_entries();
            assert forall|slot: Slot| certs.contains_key(slot) implies (#[trigger] certs[slot]).path
                != VotePath::Fast by {
                let a = keys.index_of(slot);
                assert(keys[a] == slot);
                assert(certs[keys[a]].path != VotePath::Fast);
            }
        }
        false
    }

    /// Whether the honest stake is below the fast quorum, or there is no certificate, or one on the fast path.
    pub fn fast_path_efficiency(&self) -> (b: bool)
        requires
            self.wf(),
        ensures
            b == self.deep_view().fast_path_efficiency(),
    {
        let honest = self.status_stake_wide(false);
        let quorum = self.quorum_wide(FAST_QUORUM_PERCENT);
        if honest >= quorum {
            self.fast_certificate_or_none()
        } else {
            true
        }
    }

    /// Whether every slot before the current one is certified or skipped.
    pub fn progress(&self) -> (b: bool)
        requires
            self.wf(),
        ensures
            b == self.deep_view().progress(),
    {
        let mut slot: u32 = 1;
        while slot < self.current_slot
            invariant
                1 <= slot,
                slot <= self.current_slot || self.current_slot == 0,
                self.wf(),
                forall|s: Slot| 1 <= s < slot ==> #[trigger] self.deep_view().settled(s),
            decreases self.current_slot - slot,
        {
            if !self.certificates.contains_key(&slot) && !self.skip_certs.contains_key(&slot) {
                assert(!self.deep_view().settled(slot));
                return false;
            }
            slot += 1;
        }
        true
    }

    /// Whether no vote list of an honest node holds votes for two blocks in one slot on one path.
    pub fn honest_no_equivocation(&self) -> (b: bool)
        requires
            self.wf(),
        ensures
            b == self.deep_view().honest_no_equivocation(),
    {
        let ghost model = self.deep_view();
        let ghost keys = self.votes.key_seq();
        proof {
            self.votes.lemma_deep_view();
            self.votes.lemma_entries();
        }
        let n = self.votes.len();
        let mut i: usize = 0;
        while i < n
            invariant
                i <= n,
                n == keys.len(),
                self.wf(),
                model == self.deep_view(),
                keys == self.votes.key_seq(),
                forall|a: int, slot: Slot|
                    0 <= a < i && model.is_honest(keys[a]) && #[trigger] model.has_vote_list(
                        #[trigger] keys[a],
                        slot,
                    ) ==> !equivocates(model.votes[keys[a]][slot]),
            decreases n - i,
        {
            let node = self.votes.key_at(i);
            if self.is_honest(node) {
                let inner = self.votes.value_at(i);
                proof {
                    self.votes.lemma_deep_view();
                    self.votes.lemma_entries();
                    assert(self.votes@.contains_key(keys[i as int]));
                    assert(model.votes.contains_key(node));
                    assert(model.votes[node] == inner.deep_view());
                    inner.lemma_deep_view();
                    inner.lemma_entries();
                }
                let ghost slots = inner.key_seq();
                let m = inner.len();
                let mut j: usize = 0;
                while j < m
                    invariant
                        j <= m,
                        m == slots.len(),
                        inner.wf(),
                        slots == inner.key_seq(),
                        model == self.deep_view(),
                        model.is_honest(node),
                        model.votes.contains_key(node),
                        model.votes[node] == inner.deep_view(),
                        forall|c: int| 0 <= c < j ==> !equivocates(#[trigger] model.votes[node][slots[c]]),
                    decreases m - j,
                {
                    let list = inner.value_at(j);
                    proof {
                        inner.lemma_deep_view();
                        inner.lemma_entries();
                        crate::consensus::lemma_vote_list_view(*list);
                        assert(model.votes[node][slots[j as int]] == list@);
                        assert(inner@.contains_key(slots[j as int]));
                    }
                    if list_equivocates(list) {
                        proof {
                            assert(inner.deep_view().contains_key(slots[j as int]));
                            assert(model.has_vote_list(node, slots[j as int]));
                            assert(equivocates(model.votes[node][slots[j as int]]));
                        }
                        return false;
                    }
                    j += 1;
                }
                proof {
                    assert forall|slot: Slot| #[trigger] model.has_vote_list(node, slot) implies !equivocates(
                        model.votes[node][slot],
                    ) by {
                        let c = slots.index_of(slot);
                        assert(slots[c] == slot);
                        assert(!equivocates(model.votes[node][slots[c]]));
                    }
                }
            }
            i += 1;
        }
        proof {
            assert forall|node: NodeId, slot: Slot|
                model.is_honest(node) && #[trigger] model.has_vote_list(node, slot) implies !equivocates(
                model.votes[node][slot],
            ) by {
                let a = keys.index_of(node);
                assert(keys[a] == node);
                assert(model.has_vote_list(keys[a], slot));
            }
        }
        true
    }

    /// Whether `slot` was finalized within `min(DELTA_FAST, 2 * DELTA_SLOW)`
    /// of its start; a slot without a finalization time is in time.
    pub fn check_finalization_time_bounds(&self, slot: Slot) -> (b: bool)
        requires
            self.finalization_times.wf(),
        ensures
            b == self.deep_view().finalized_in_time(slot),
    {
        match self.finalization_times.get(&slot) {
            Some(time) => {
                let start: u64 = slot as u64 * SLOT_MILLIS;
                let bound: u64 = if DELTA_FAST <= 2 * DELTA_SLOW {
                    DELTA_FAST
                } else {
                    2 * DELTA_SLOW
                };
                *time <= start + bound
            },
            None => true,
        }
    }

    /// Whether every slot with a finalization time was finalized within the bound.
    pub fn bounded_finalization_time(&self) -> (b: bool)
        requires
            self.wf(),
        ensures
            b == self.deep_view().bounded_finalization_time(),
    {
        let ghost keys = self.finalization_times.key_seq();
        proof {
            self.finalization_times.lemma_entries();
        }
        let n = self.finalization_times.len();
        let mut i: usize = 0;
        while i < n
            invariant
                i <= n,
                n == keys.len(),
                self.wf(),
                keys == self.finalization_times.key_seq(),
                forall|a: int| 0 <= a < i ==> self.deep_view().finalized_in_time(#[trigger] keys[a]),
            decreases n - i,
        {
            let slot = self.finalization_times.key_at(i);
            if !self.check_finalization_time_bounds(slot) {
                return false;
            }
            i += 1;
        }
        proof {
            self.finalization_times.lemma_entries();
            assert forall|slot: Slot| #[trigger]
                self.deep_view().finalization_times.contains_key(slot) implies self.deep_view().finalized_in_time(
                slot,
            ) by {
                let a = keys.index_of(slot);
                assert(keys[a] == slot);
            }
        }
        true
    }

    /// Whether every known block can be put together again.
    pub fn erasure_block_availability(&self) -> (b: bool)
        requires
            self.wf(),
        ensures
            b == self.deep_view().erasure_block_availability(),
    {
        let ghost keys = self.erasure_coded_blocks.key_seq();
        proof {
            self.erasure_coded_blocks.lemma_entries();
            self.erasure_coded_blocks.lemma_deep_view();
        }
        let n = self.erasure_coded_blocks.len();
        let mut i: usize = 0;
        while i < n
            invariant
                i <= n,
                n == keys.len(),
                self.wf(),
                keys == self.erasure_coded_blocks.key_seq(),
                forall|a: int| 0 <= a < i ==> self.deep_view().can_reconstruct(#[trigger] keys[a]),
            decreases n - i,
        {
            let block = self.erasure_coded_blocks.key_at(i);
            if !self.can_reconstruct_block(block) {
                proof {
                    self.erasure_coded_blocks.lemma_deep_view();
                    assert(self.deep_view().erasure_coded_blocks.contains_key(block));
                }
                return false;
            }
            i += 1;
        }
        proof {
            self.erasure_coded_blocks.lemma_entries();
            self.erasure_coded_blocks.lemma_deep_view();
            assert forall|block: BlockId| #[trigger]
                self.deep_view().erasure_coded_blocks.contains_key(block) implies self.deep_view().can_reconstruct(
                block,
            ) by {
                let a = keys.index_of(block);
                assert(keys[a] == block);
            }
        }
        true
    }

    /// Whether the history is shorter than `FAIRNESS_HISTORY`, or no node led in more than half of it.
    pub fn leader_rotation_fairness(&self) -> (b: bool)
        ensures
            b == self.deep_view().leader_rotation_fairness(),
    {
        let history = &self.leader_rotation.leader_history;
        let n = history.len();
        if n < FAIRNESS_HISTORY {
            return true;
        }
        let mut i: usize = 0;
        while i < n
            invariant
                i <= n,
                n == history@.len(),
                n >= FAIRNESS_HISTORY,
                history@ == self.deep_view().leader_rotation.leader_history,
                forall|a: int|
                    0 <= a < i ==> times_led(history@, (#[trigger] history@[a]).1, n as int) <= n / 2,
            decreases n - i,
        {
            if count_led(history, history[i].1) > n / 2 {
                return false;
            }
            i += 1;
        }
        true
    }

    /// The properties of the model.
    pub fn properties(&self) -> (list: Vec<ProtocolProperty>)
        ensures
            list@ == seq![
                ProtocolProperty::StakeWeightedSafety,
                ProtocolProperty::ByzantineResilience,
                ProtocolProperty::FastPathEfficiency,
                ProtocolProperty::Progress,
                ProtocolProperty::HonestNoEquivocation,
                ProtocolProperty::BoundedFinalizationTime,
                ProtocolProperty::ErasureBlockAvailability,
                ProtocolProperty::LeaderRotationFairness,
            ],
    {
        let mut list: Vec<ProtocolProperty> = Vec::new();
        list.push(ProtocolProperty::StakeWeightedSafety);
        list.push(ProtocolProperty::ByzantineResilience);
        list.push(ProtocolProperty::FastPathEfficiency);
        list.push(ProtocolProperty::Progress);
        list.push(ProtocolProperty::HonestNoEquivocation);
        list.push(ProtocolProperty::BoundedFinalizationTime);
        list.push(ProtocolProperty::ErasureBlockAvailability);
        list.push(ProtocolProperty::LeaderRotationFairness);
        assert(list@ =~= seq![
            ProtocolProperty::StakeWeightedSafety,
            ProtocolProperty::ByzantineResilience,
            ProtocolProperty::FastPathEfficiency,
            ProtocolProperty::Progress,
            ProtocolProperty::HonestNoEquivocation,
            ProtocolProperty::BoundedFinalizationTime,
            ProtocolProperty::ErasureBlockAvailability,
            ProtocolProperty::LeaderRotationFairness,
        ]);
        list
    }

    /// Whether `property` holds of the state.
    pub fn holds(&self, property: ProtocolProperty) -> (b: bool)
        requires
            self.wf(),
        ensures
            b == property.holds_of(self.deep_view()),
    {
        match property {
            ProtocolProperty::StakeWeightedSafety => self.stake_weighted_safety(),
            ProtocolProperty::ByzantineResilience => self.byzantine_resilience(),
            ProtocolProperty::FastPathEfficiency => self.fast_path_efficiency(),
            ProtocolProperty::Progress => self.progress(),
            ProtocolProperty::HonestNoEquivocation => self.honest_no_equivocation(),
            ProtocolProperty::BoundedFinalizationTime => self.bounded_finalization_time(),
            ProtocolProperty::ErasureBlockAvailability => self.erasure_block_availability(),
            ProtocolProperty::LeaderRotationFairness => self.leader_rotation_fairness(),
        }
    }
}

} // verus!
