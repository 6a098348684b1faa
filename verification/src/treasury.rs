//! Operations of the economic layer: epoch rewards, their distribution,
//! slashing, deposits and withdrawals, and the standing checks on the books.

use vstd::prelude::*;
use vstd::string::StringExecFns;
use crate::byzantine::{ByzantineStrategy, NodeStatus, NodeStatusView, StrategyView};
use crate::economics::{
    EconomicError, EconomicView, RewardDistribution, RewardDistributionView, SlashingData, SlashingDataView,
    SlashingEvidence, SlashingEvidenceView, SlashingSeverity, SlashingType,
};
use crate::fraction::{clip, Fraction};
use crate::sorted_map::{lemma_deep_insert, ordered_keys, SortedMap};
use crate::state::{
    lemma_prefix_contains, map_total, total_of, AlpenglowState, StateView,
};
use crate::text::{is_numbered, numbered};
use crate::types::{NodeId, RewardAmount, SlashingAmount, StakeAmount, Vote};

verus! {

/// The share of a balance that an offence of `severity` costs, in percent.
pub open spec fn slash_percent(severity: SlashingSeverity) -> int {
    match severity {
        SlashingSeverity::Minor => 5,
        SlashingSeverity::Moderate => 15,
        SlashingSeverity::Severe => 30,
        SlashingSeverity::Critical => 50,
    }
}

/// What an offence of `severity` costs a validator with `balance`.
pub open spec fn slash_amount(balance: int, severity: SlashingSeverity) -> int {
    (balance * slash_percent(severity)) / 100
}

/// The value of `m` at `node`, zero where there is none.
pub open spec fn amount_at(m: Map<NodeId, u64>, node: NodeId) -> int {
    if m.contains_key(node) {
        m[node] as int
    } else {
        0
    }
}

/// `balances` with each amount of `rewards` added to the balance of its node.
pub open spec fn credited(balances: Map<NodeId, StakeAmount>, rewards: Map<NodeId, RewardAmount>) -> Map<
    NodeId,
    int,
> {
    Map::new(
        |n: NodeId| balances.contains_key(n) || rewards.contains_key(n),
        |n: NodeId| amount_at(balances, n) + amount_at(rewards, n),
    )
}

/// Whether every amount of `m` is in the range of `u64`.
pub open spec fn fits(m: Map<NodeId, int>) -> bool {
    forall|n: NodeId| m.contains_key(n) ==> 0 <= #[trigger] m[n] <= u64::MAX
}

/// `m`, with its amounts as `u64`.
pub open spec fn narrowed(m: Map<NodeId, int>) -> Map<NodeId, u64> {
    Map::new(|n: NodeId| m.contains_key(n), |n: NodeId| m[n] as u64)
}

/// The evidence that two votes give of double voting: the same node voted
/// in the same slot on the same path for two blocks.
pub open spec fn double_vote(vote1: Vote, vote2: Vote) -> bool {
    vote1.node == vote2.node && vote1.slot == vote2.slot && vote1.block != vote2.block && vote1.path
        == vote2.path
}

/// A finding of the standing checks on the books.
#[derive(Clone, Copy, Debug, PartialEq, Eq, Structural)]
pub enum EconomicViolation {
    /// The balances add up to more than stake and pool less the slashed
    /// amount allow. `allowed` is zero where that is negative.
    StakeInflation { distributed: u128, allowed: u128 },
    /// A node with a stake has a balance of zero.
    ZeroBalance { node: NodeId },
    /// The pool holds more than twice the total stake.
    PoolTooLarge,
}

/// The nodes among the first `n` of `keys` that have a stake and a balance
/// of zero, as findings.
pub open spec fn zero_balances(
    balances: Map<NodeId, StakeAmount>,
    stakes: Map<NodeId, StakeAmount>,
    keys: Seq<NodeId>,
    n: int,
) -> Seq<EconomicViolation>
    decreases n,
{
    if n <= 0 {
        Seq::empty()
    } else if balances[keys[n - 1]] == 0 && stakes.contains_key(keys[n - 1]) {
        zero_balances(balances, stakes, keys, n - 1).push(EconomicViolation::ZeroBalance { node: keys[n - 1] })
    } else {
        zero_balances(balances, stakes, keys, n - 1)
    }
}

impl StateView {
    /// The balance of `node`, zero where it has none.
    pub open spec fn balance_of(self, node: NodeId) -> int {
        amount_at(self.economic_state.validator_balances, node)
    }

    /// What one epoch pays out in all: the floor of the pool times the reward rate.
    pub open spec fn epoch_total(self) -> int {
        self.economic_state.reward_rate.of(self.economic_state.rewards_pool as int)
    }

    /// What one epoch pays each of `count` participants as its base reward.
    pub open spec fn epoch_base(self, count: int) -> int {
        if count <= 0 {
            0
        } else {
            self.epoch_total() / count
        }
    }

    /// The bonus of `node` on a base reward of `base`: a fifth of the base,
    /// weighted by the node's share of the stake, rounded down.
    pub open spec fn stake_bonus(self, base: int, node: NodeId) -> int {
        if self.total_stake() == 0 {
            0
        } else {
            clip((base * self.stake_of(node)) / (5 * self.total_stake()))
        }
    }

    /// The rewards of an epoch in which `participants` took part: each gets
    /// the base reward and half of it again for taking part; the honest ones
    /// get their bonus on top.
    pub open spec fn epoch_rewards(self, epoch: u64, participants: Seq<NodeId>) -> RewardDistributionView {
        let base = self.epoch_base(participants.len() as int);
        RewardDistributionView {
            epoch,
            total_rewards: self.epoch_total() as u64,
            validator_rewards: Map::new(|n: NodeId| participants.contains(n), |n: NodeId| base as u64),
            performance_bonuses: Map::new(
                |n: NodeId| participants.contains(n) && self.is_honest(n),
                |n: NodeId| self.stake_bonus(base, n) as u64,
            ),
            participation_rewards: Map::new(|n: NodeId| participants.contains(n), |n: NodeId| (base / 2) as u64),
        }
    }

    /// What slashing on `evidence` yields: the slashed amount, or why nothing is slashed.
    pub open spec fn slashing_outcome(self, evidence: SlashingEvidenceView) -> Result<u64, EconomicError> {
        let balance = self.balance_of(evidence.violator);
        let amount = slash_amount(balance, evidence.severity);
        if balance == 0 {
            Err(EconomicError::NoStake)
        } else if self.economic_state.total_slashed + amount > u64::MAX {
            Err(EconomicError::OutOfRange)
        } else {
            Ok(amount as u64)
        }
    }

    /// The state after slashing on `evidence`: the balance of the violator
    /// cut by the slashed amount, which is added to the total; the evidence
    /// logged; the violator marked Byzantine where the offence is critical.
    pub open spec fn slashed(self, evidence: SlashingEvidenceView) -> StateView {
        let balance = self.balance_of(evidence.violator);
        let amount = slash_amount(balance, evidence.severity);
        StateView {
            economic_state: EconomicView {
                validator_balances: self.economic_state.validator_balances.insert(
                    evidence.violator,
                    (balance - amount) as u64,
                ),
                total_slashed: (self.economic_state.total_slashed + amount) as u64,
                slashing_evidence: self.economic_state.slashing_evidence.push(evidence),
                ..self.economic_state
            },
            status: if evidence.severity == SlashingSeverity::Critical {
                self.status.insert(evidence.violator, NodeStatusView::Byzantine(StrategyView::Equivocation))
            } else {
                self.status
            },
            ..self
        }
    }

    /// The state after an attempt to slash on `evidence`.
    pub open spec fn apply_slashing(self, evidence: SlashingEvidenceView) -> StateView {
        if self.slashing_outcome(evidence) is Ok {
            self.slashed(evidence)
        } else {
            self
        }
    }

    /// The balances after the base rewards of `rewards` have been credited.
    pub open spec fn after_base(self, rewards: RewardDistributionView) -> Map<NodeId, int> {
        credited(self.economic_state.validator_balances, rewards.validator_rewards)
    }

    /// The balances after the bonuses have been credited as well.
    pub open spec fn after_bonus(self, rewards: RewardDistributionView) -> Map<NodeId, int> {
        credited(narrowed(self.after_base(rewards)), rewards.performance_bonuses)
    }

    /// The balances after all of `rewards` has been credited.
    pub open spec fn after_rewards(self, rewards: RewardDistributionView) -> Map<NodeId, int> {
        credited(narrowed(self.after_bonus(rewards)), rewards.participation_rewards)
    }

    /// Why `rewards` cannot be distributed, if it cannot.
    pub open spec fn distribution_outcome(self, rewards: RewardDistributionView) -> Result<(), EconomicError> {
        if rewards.total_rewards > self.economic_state.rewards_pool {
            Err(EconomicError::InsufficientRewards)
        } else if !fits(self.after_base(rewards)) || !fits(self.after_bonus(rewards)) || !fits(
            self.after_rewards(rewards),
        ) {
            Err(EconomicError::OutOfRange)
        } else {
            Ok(())
        }
    }

    /// The state after `rewards` has been distributed: every amount
    /// credited to the balance of its node, the total taken from the pool.
    pub open spec fn rewarded(self, rewards: RewardDistributionView) -> StateView {
        StateView {
            economic_state: EconomicView {
                validator_balances: narrowed(self.after_rewards(rewards)),
                rewards_pool: (self.economic_state.rewards_pool - rewards.total_rewards) as u64,
                ..self.economic_state
            },
            ..self
        }
    }

    /// The state after an attempt to distribute `rewards`.
    pub open spec fn distribute_rewards(self, rewards: RewardDistributionView) -> StateView {
        if self.distribution_outcome(rewards) is Ok {
            self.rewarded(rewards)
        } else {
            self
        }
    }

    /// The state with `error` logged.
    pub open spec fn with_error(self, error: EconomicError) -> StateView {
        StateView { error_log: self.error_log.push(error), ..self }
    }

    /// The state after `node` has withdrawn `amount` of its balance. Nothing
    /// changes where the node has no balance, or less than `amount`.
    pub open spec fn withdraw_rewards(self, node: NodeId, amount: RewardAmount) -> StateView {
        if self.economic_state.validator_balances.contains_key(node) && self.balance_of(node) >= amount {
            StateView {
                economic_state: EconomicView {
                    validator_balances: self.economic_state.validator_balances.insert(
                        node,
                        (self.balance_of(node) - amount) as u64,
                    ),
                    ..self.economic_state
                },
                ..self
            }
        } else {
            self
        }
    }

    /// Whether a deposit of `amount` by `node` keeps balance and stake in range.
    pub open spec fn deposit_fits(self, node: NodeId, amount: StakeAmount) -> bool {
        self.balance_of(node) + amount <= u64::MAX && self.stake_of(node) + amount <= u64::MAX
    }

    /// The state after `node` has deposited `amount`: balance and stake
    /// raised by it, the node in the registry. Nothing changes where balance
    /// or stake would leave its range.
    pub open spec fn stake_deposit(self, node: NodeId, amount: StakeAmount) -> StateView {
        if self.deposit_fits(node, amount) {
            StateView {
                economic_state: EconomicView {
                    validator_balances: self.economic_state.validator_balances.insert(
                        node,
                        (self.balance_of(node) + amount) as u64,
                    ),
                    ..self.economic_state
                },
                stake_distribution: self.stake_distribution.insert(node, (self.stake_of(node) + amount) as u64),
                nodes: if self.nodes.contains(node) {
                    self.nodes
                } else {
                    self.nodes.push(node)
                },
                ..self
            }
        } else {
            self
        }
    }

    /// Whether `node` has a balance of at least `amount`.
    pub open spec fn can_withdraw(self, node: NodeId, amount: StakeAmount) -> bool {
        self.economic_state.validator_balances.contains_key(node) && self.balance_of(node) >= amount
    }

    /// The state after `node` has withdrawn `amount` of its stake: the
    /// balance cut by it, and the stake too, down to zero at most. Where the
    /// balance does not cover the amount, the refusal is logged.
    pub open spec fn stake_withdrawal(self, node: NodeId, amount: StakeAmount) -> StateView {
        if self.can_withdraw(node, amount) {
            StateView {
                economic_state: EconomicView {
                    validator_balances: self.economic_state.validator_balances.insert(
                        node,
                        (self.balance_of(node) - amount) as u64,
                    ),
                    ..self.economic_state
                },
                stake_distribution: if self.stake_distribution.contains_key(node) {
                    self.stake_distribution.insert(
                        node,
                        if self.stake_of(node) >= amount {
                            (self.stake_of(node) - amount) as u64
                        } else {
                            0
                        },
                    )
                } else {
                    self.stake_distribution
                },
                ..self
            }
        } else {
            self.with_error(EconomicError::InsufficientBalance)
        }
    }

    /// The state with `evidence` logged and nothing slashed.
    pub open spec fn report_slashing(self, evidence: SlashingEvidenceView) -> StateView {
        StateView {
            economic_state: EconomicView {
                slashing_evidence: self.economic_state.slashing_evidence.push(evidence),
                ..self.economic_state
            },
            ..self
        }
    }

    /// The state with new rates.
    pub open spec fn update_parameters(self, reward_rate: Fraction, slashing_rate: Fraction) -> StateView {
        StateView {
            economic_state: EconomicView { reward_rate, slashing_rate, ..self.economic_state },
            ..self
        }
    }

    /// The sum of all balances.
    pub open spec fn total_balance(self) -> int {
        total_of(self.economic_state.validator_balances)
    }

    /// What the balances may add up to: stake and pool, less what was slashed.
    pub open spec fn backing(self) -> int {
        self.total_stake() + self.economic_state.rewards_pool - self.economic_state.total_slashed
    }

    /// What the standing checks find: inflation first, then the nodes with
    /// a stake and no balance in ascending order, then an oversized pool.
    pub open spec fn economic_violations(self) -> Seq<EconomicViolation> {
        let balances = self.economic_state.validator_balances;
        let inflation = if self.total_balance() > self.backing() {
            seq![
                EconomicViolation::StakeInflation {
                    distributed: self.total_balance() as u128,
                    allowed: if self.backing() < 0 {
                        0
                    } else {
                        self.backing() as u128
                    },
                },
            ]
        } else {
            Seq::empty()
        };
        let pool = if self.economic_state.rewards_pool > 2 * self.total_stake() {
            seq![EconomicViolation::PoolTooLarge]
        } else {
            Seq::empty()
        };
        inflation + zero_balances(
            balances,
            self.stake_distribution,
            ordered_keys(balances),
            ordered_keys(balances).len() as int,
        ) + pool
    }
}

/// What an offence of `severity` costs a validator with `balance`.
fn slash_of(balance: u64, severity: SlashingSeverity) -> (amount: u64)
    ensures
        amount == slash_amount(balance as int, severity),
        amount <= balance,
{
    let percent: u128 = match severity {
        SlashingSeverity::Minor => 5,
        SlashingSeverity::Moderate => 15,
        SlashingSeverity::Severe => 30,
        SlashingSeverity::Critical => 50,
    };
    let wide: u128 = balance as u128;
    let q: u128 = (wide * percent) / 100;
    assert(q <= wide) by (nonlinear_arith)
        requires
            q == (wide * percent) / 100,
            percent <= 100,
            0 <= wide,
    ;
    q as u64
}

/// Credits each amount of `rewards` to `work`; stops at the first balance
/// that would leave its range and says so.
fn credit_into(work: &mut SortedMap<NodeId, StakeAmount>, rewards: &SortedMap<NodeId, RewardAmount>) -> (ok: bool)
    requires
        old(work).wf(),
        rewards.wf(),
    ensures
        final(work).wf(),
        ok == fits(credited(old(work)@, rewards@)),
        ok ==> final(work)@ == narrowed(credited(old(work)@, rewards@)),
{
    let ghost start = work@;
    let ghost keys = rewards.key_seq();
    proof {
        rewards.lemma_entries();
    }
    let n = rewards.len();
    let mut i: usize = 0;
    while i < n
        invariant
            i <= n,
            n == keys.len(),
            work.wf(),
            rewards.wf(),
            keys == rewards.key_seq(),
            start == old(work)@,
            forall|q: NodeId| #[trigger]
                work@.contains_key(q) <==> (start.contains_key(q) || keys.subrange(0, i as int).contains(q)),
            forall|q: NodeId|
                work@.contains_key(q) ==> #[trigger] work@[q] == amount_at(start, q) + if keys.subrange(
                    0,
                    i as int,
                ).contains(q) {
                    rewards@[q] as int
                } else {
                    0
                },
        decreases n - i,
    {
        let k = rewards.key_at(i);
        let r = *rewards.value_at(i);
        proof {
            rewards.lemma_entries();
            lemma_prefix_contains(keys, i as int);
            if keys.subrange(0, i as int).contains(k) {
                let j = choose|j: int| 0 <= j < i && keys.subrange(0, i as int)[j] == k;
                crate::sorted_map::lemma_ascending_unique(keys, j, i as int);
            }
        }
        let current: u64 = match work.get(&k) {
            Some(v) => *v,
            None => 0,
        };
        match current.checked_add(r) {
            Some(sum) => {
                work.insert(k, sum);
            },
            None => {
                proof {
                    assert(!keys.subrange(0, i as int).contains(k));
                    assert(current == amount_at(start, k));
                    assert(rewards@[k] == r);
                    assert(credited(start, rewards@).contains_key(k));
                    assert(credited(start, rewards@)[k] == current + r);
                    assert(!fits(credited(start, rewards@)));
                }
                return false;
            },
        }
        i += 1;
    }
    proof {
        assert(keys.subrange(0, n as int) =~= keys);
        rewards.lemma_entries();
        let target = credited(start, rewards@);
        assert forall|q: NodeId| target.contains_key(q) implies 0 <= #[trigger] target[q] <= u64::MAX by {
            if rewards@.contains_key(q) {
                assert(keys.contains(q));
            }
            assert(work@.contains_key(q));
            assert(work@[q] == target[q]);
        }
        assert forall|q: NodeId| work@.contains_key(q) <==> target.contains_key(q) by {
            if rewards@.contains_key(q) {
                assert(keys.contains(q));
            }
            if keys.contains(q) {
                let j = choose|j: int| 0 <= j < keys.len() && keys[j] == q;
                assert(rewards@.contains_key(keys[j]));
            }
        }
        assert(work@ =~= narrowed(target));
    }
    true
}

impl AlpenglowState {
    /// The evidence that two votes give of double voting, if they give any.
    pub fn detect_double_voting(&self, vote1: &Vote, vote2: &Vote) -> (r: Option<SlashingEvidence>)
        ensures
            double_vote(*vote1, *vote2) <==> r is Some,
            r is Some ==> r.unwrap().deep_view() == (SlashingEvidenceView {
                evidence_type: SlashingType::DoubleVoting,
                violator: vote1.node,
                slot: vote1.slot,
                evidence_data: SlashingDataView::DoubleVote { vote1: *vote1, vote2: *vote2 },
                severity: SlashingSeverity::Severe,
                reporter: None,
                timestamp: self.global_time,
            }),
    {
        if vote1.node == vote2.node && vote1.slot == vote2.slot && vote1.block != vote2.block && vote1.path
            == vote2.path {
            Some(
                SlashingEvidence {
                    evidence_type: SlashingType::DoubleVoting,
                    violator: vote1.node,
                    slot: vote1.slot,
                    evidence_data: SlashingData::DoubleVote { vote1: *vote1, vote2: *vote2 },
                    severity: SlashingSeverity::Severe,
                    reporter: None,
                    timestamp: self.global_time,
                },
            )
        } else {
            None
        }
    }

    /// The balance of `node`, zero where it has none.
    pub fn balance_of(&self, node: NodeId) -> (b: StakeAmount)
        requires
            self.economic_state.wf(),
        ensures
            b == self.deep_view().balance_of(node),
    {
        match self.economic_state.validator_balances.get(&node) {
            Some(v) => *v,
            None => 0,
        }
    }

    /// The rewards of `epoch` for the nodes that took part in it.
    pub fn calculate_epoch_rewards(&self, epoch: u64, participating_nodes: &[NodeId]) -> (r:
        RewardDistribution)
        requires
            self.wf(),
        ensures
            r.wf(),
            r.deep_view() == self.deep_view().epoch_rewards(epoch, participating_nodes@),
    {
        let ghost model = self.deep_view();
        let ghost participants = participating_nodes@;
        let epoch_rewards = self.economic_state.reward_rate.scale(self.economic_state.rewards_pool);
        let count = participating_nodes.len();
        let base: u64 = if count == 0 {
            0
        } else {
            epoch_rewards / (count as u64)
        };
        let total = self.total_stake_wide();
        let mut validator_rewards: SortedMap<NodeId, RewardAmount> = SortedMap::new();
        let mut performance_bonuses: SortedMap<NodeId, RewardAmount> = SortedMap::new();
        let mut participation_rewards: SortedMap<NodeId, RewardAmount> = SortedMap::new();
        let mut i: usize = 0;
        while i < count
            invariant
                i <= count,
                count == participants.len(),
                participants == participating_nodes@,
                self.wf(),
                model == self.deep_view(),
                total == model.total_stake(),
                total <= 0x1_0000_0000 * u64::MAX,
                base == model.epoch_base(count as int),
                validator_rewards.wf(),
                performance_bonuses.wf(),
                participation_rewards.wf(),
                forall|n: NodeId| #[trigger]
                    validator_rewards@.contains_key(n) <==> participants.subrange(0, i as int).contains(n),
                forall|n: NodeId| #[trigger]
                    participation_rewards@.contains_key(n) <==> participants.subrange(0, i as int).contains(n),
                forall|n: NodeId| #[trigger]
                    performance_bonuses@.contains_key(n) <==> (participants.subrange(0, i as int).contains(n)
                        && model.is_honest(n)),
                forall|n: NodeId| validator_rewards@.contains_key(n) ==> #[trigger] validator_rewards@[n] == base,
                forall|n: NodeId|
                    participation_rewards@.contains_key(n) ==> #[trigger] participation_rewards@[n] == base / 2,
                forall|n: NodeId|
                    performance_bonuses@.contains_key(n) ==> #[trigger] performance_bonuses@[n]
                        == model.stake_bonus(base as int, n),
            decreases count - i,
        {
            let node = participating_nodes[i];
            proof {
                lemma_prefix_contains(participants, i as int);
            }
            validator_rewards.insert(node, base);
            participation_rewards.insert(node, base / 2);
            if self.is_honest(node) {
                let stake = self.stake_of(node);
                let bonus: u64 = if total == 0 {
                    0
                } else {
                    assert(base * stake <= 0xFFFF_FFFF_FFFF_FFFF * 0xFFFF_FFFF_FFFF_FFFF) by (nonlinear_arith)
                        requires
                            base <= 0xFFFF_FFFF_FFFF_FFFF,
                            stake <= 0xFFFF_FFFF_FFFF_FFFF,
                    ;
                    let q: u128 = (base as u128 * stake as u128) / (5 * total);
                    if q > u64::MAX as u128 {
                        u64::MAX
                    } else {
                        q as u64
                    }
                };
                performance_bonuses.insert(node, bonus);
            }
            i += 1;
        }
        let r = RewardDistribution {
            epoch,
            total_rewards: epoch_rewards,
            validator_rewards,
            performance_bonuses,
            participation_rewards,
        };
        proof {
            assert(participants.subrange(0, count as int) =~= participants);
            let want = model.epoch_rewards(epoch, participants);
            assert(r.deep_view().validator_rewards =~= want.validator_rewards);
            assert(r.deep_view().performance_bonuses =~= want.performance_bonuses);
            assert(r.deep_view().participation_rewards =~= want.participation_rewards);
        }
        r
    }

    /// Slashes the violator that `evidence` names.
    ///
    /// Refused with `NoStake` where the violator has no balance, and with
    /// `OutOfRange` where the total of slashed amounts would leave its range.
    pub fn apply_slashing(&mut self, evidence: &SlashingEvidence) -> (r: Result<SlashingAmount, EconomicError>)
        requires
            old(self).wf(),
        ensures
            final(self).wf(),
            r == old(self).deep_view().slashing_outcome(evidence.deep_view()),
            final(self).deep_view() == old(self).deep_view().apply_slashing(evidence.deep_view()),
    {
        let violator = evidence.violator;
        let balance = self.balance_of(violator);
        if balance == 0 {
            return Err(EconomicError::NoStake);
        }
        let amount = slash_of(balance, evidence.severity);
        match self.economic_state.total_slashed.checked_add(amount) {
            None => Err(EconomicError::OutOfRange),
            Some(total) => {
                let ghost before = *self;
                self.economic_state.validator_balances.insert(violator, balance - amount);
                self.economic_state.total_slashed = total;
                match evidence.severity {
                    SlashingSeverity::Critical => {
                        let status = NodeStatus::Byzantine(ByzantineStrategy::Equivocation);
                        self.status.insert(violator, status);
                        proof {
                            lemma_deep_insert(before.status, self.status, violator, status);
                        }
                    },
                    _ => {},
                }
                let copy = evidence.clone();
                self.economic_state.slashing_evidence.push(copy);
                proof {
                    assert(self.economic_state.slashing_evidence.deep_view()
                        =~= before.economic_state.slashing_evidence.deep_view().push(evidence.deep_view()));
                    assert(self.deep_view() =~= before.deep_view().slashed(evidence.deep_view()));
                }
                Ok(amount)
            },
        }
    }

    /// Pays out `distribution`.
    ///
    /// Refused with `InsufficientRewards` where the pool does not cover the
    /// total, and with `OutOfRange` where a balance would leave its range.
    pub fn distribute_rewards(&mut self, distribution: &RewardDistribution) -> (r: Result<(), EconomicError>)
        requires
            old(self).wf(),
            distribution.wf(),
        ensures
            final(self).wf(),
            r == old(self).deep_view().distribution_outcome(distribution.deep_view()),
            final(self).deep_view() == old(self).deep_view().distribute_rewards(distribution.deep_view()),
    {
        if distribution.total_rewards > self.economic_state.rewards_pool {
            return Err(EconomicError::InsufficientRewards);
        }
        let mut work = self.economic_state.validator_balances.copied();
        if !credit_into(&mut work, &distribution.validator_rewards) {
            return Err(EconomicError::OutOfRange);
        }
        if !credit_into(&mut work, &distribution.performance_bonuses) {
            return Err(EconomicError::OutOfRange);
        }
        if !credit_into(&mut work, &distribution.participation_rewards) {
            return Err(EconomicError::OutOfRange);
        }
        self.economic_state.validator_balances = work;
        self.economic_state.rewards_pool = self.economic_state.rewards_pool - distribution.total_rewards;
        proof {
            assert(self.deep_view() =~= old(self).deep_view().rewarded(distribution.deep_view()));
        }
        Ok(())
    }

    /// `node` withdraws `amount` of its balance.
    pub fn withdraw_rewards(&mut self, node: NodeId, amount: RewardAmount)
        requires
            old(self).wf(),
        ensures
            final(self).wf(),
            final(self).deep_view() == old(self).deep_view().withdraw_rewards(node, amount),
    {
        match self.economic_state.validator_balances.get(&node) {
            Some(balance) => {
                if *balance >= amount {
                    let rest: u64 = *balance - amount;
                    self.economic_state.validator_balances.insert(node, rest);
                    assert(self.deep_view() =~= old(self).deep_view().withdraw_rewards(node, amount));
                }
            },
            None => {},
        }
    }

    /// `node` deposits `amount`.
    pub fn stake_deposit(&mut self, node: NodeId, amount: StakeAmount)
        requires
            old(self).wf(),
        ensures
            final(self).wf(),
            final(self).deep_view() == old(self).deep_view().stake_deposit(node, amount),
    {
        let balance = self.balance_of(node);
        let stake = self.stake_of(node);
        match (balance.checked_add(amount), stake.checked_add(amount)) {
            (Some(new_balance), Some(new_stake)) => {
                self.economic_state.validator_balances.insert(node, new_balance);
                self.stake_distribution.insert(node, new_stake);
                if !crate::byzantine::list_contains(&self.nodes, node) {
                    self.nodes.push(node);
                }
                assert(self.deep_view() =~= old(self).deep_view().stake_deposit(node, amount));
            },
            _ => {},
        }
    }

    /// `node` withdraws `amount` of its stake.
    pub fn stake_withdrawal(&mut self, node: NodeId, amount: StakeAmount)
        requires
            old(self).wf(),
        ensures
            final(self).wf(),
            final(self).deep_view() == old(self).deep_view().stake_withdrawal(node, amount),
    {
        let covered = match self.economic_state.validator_balances.get(&node) {
            Some(balance) => *balance >= amount,
            None => false,
        };
        if covered {
            let rest: u64 = self.balance_of(node) - amount;
            self.economic_state.validator_balances.insert(node, rest);
            match self.stake_distribution.get(&node) {
                Some(stake) => {
                    let left: u64 = if *stake >= amount {
                        *stake - amount
                    } else {
                        0
                    };
                    self.stake_distribution.insert(node, left);
                },
                None => {},
            }
            assert(self.deep_view() =~= old(self).deep_view().stake_withdrawal(node, amount));
        } else {
            self.error_log.push(EconomicError::InsufficientBalance);
            assert(self.deep_view() =~= old(self).deep_view().stake_withdrawal(node, amount));
        }
    }

    /// Logs `evidence` without slashing.
    pub fn report_slashing(&mut self, evidence: SlashingEvidence)
        requires
            old(self).wf(),
        ensures
            final(self).wf(),
            final(self).deep_view() == old(self).deep_view().report_slashing(evidence.deep_view()),
    {
        let ghost e = evidence;
        self.economic_state.slashing_evidence.push(evidence);
        proof {
            assert(self.economic_state.slashing_evidence.deep_view() =~= old(
                self,
            ).economic_state.slashing_evidence.deep_view().push(e.deep_view()));
            assert(self.deep_view() =~= old(self).deep_view().report_slashing(e.deep_view()));
        }
    }

    /// What the standing checks on the books find.
    pub fn economic_violations(&self) -> (found: Vec<EconomicViolation>)
        requires
            self.wf(),
        ensures
            found@ == self.deep_view().economic_violations(),
    {
        let ghost model = self.deep_view();
        let mut found: Vec<EconomicViolation> = Vec::new();
        let distributed = map_total(&self.economic_state.validator_balances);
        let staked = self.total_stake_wide();
        let gross: u128 = staked + self.economic_state.rewards_pool as u128;
        let slashed: u128 = self.economic_state.total_slashed as u128;
        if gross < slashed || distributed > gross - slashed {
            let allowed: u128 = if gross < slashed {
                0
            } else {
                gross - slashed
            };
            found.push(EconomicViolation::StakeInflation { distributed, allowed });
        }
        let ghost head = found@;
        let ghost balances = self.economic_state.validator_balances@;
        let ghost keys = self.economic_state.validator_balances.key_seq();
        proof {
            self.economic_state.validator_balances.lemma_ordered_keys();
            self.economic_state.validator_balances.lemma_entries();
        }
        let n = self.economic_state.validator_balances.len();
        let mut i: usize = 0;
        assert(found@ =~= head + zero_balances(balances, model.stake_distribution, keys, 0));
        while i < n
            invariant
                i <= n,
                n == keys.len(),
                self.wf(),
                model == self.deep_view(),
                balances == self.economic_state.validator_balances@,
                keys == self.economic_state.validator_balances.key_seq(),
                found@ == head + zero_balances(balances, model.stake_distribution, keys, i as int),
            decreases n - i,
        {
            let node = self.economic_state.validator_balances.key_at(i);
            let balance = *self.economic_state.validator_balances.value_at(i);
            if balance == 0 && self.stake_distribution.contains_key(&node) {
                found.push(EconomicViolation::ZeroBalance { node });
            }
            i += 1;
            assert(found@ =~= head + zero_balances(balances, model.stake_distribution, keys, i as int));
        }
        let ghost middle = found@;
        if self.economic_state.rewards_pool as u128 > 2 * staked {
            found.push(EconomicViolation::PoolTooLarge);
            assert(found@ =~= middle + seq![EconomicViolation::PoolTooLarge]);
        } else {
            assert(found@ =~= middle + Seq::<EconomicViolation>::empty());
        }
        found
    }
}

impl EconomicViolation {
    /// Whether `text` is the finding as a line of text.
    pub open spec fn reads(self, text: Seq<char>) -> bool {
        match self {
            EconomicViolation::StakeInflation { distributed, allowed } => exists|left: Seq<char>|
                #[trigger] is_numbered(left, "Stake inflation detected: "@, distributed, " > "@) && is_numbered(
                    text,
                    left,
                    allowed,
                    ""@,
                ),
            EconomicViolation::ZeroBalance { node } => is_numbered(
                text,
                "Node "@,
                node as u128,
                " has zero balance but is active"@,
            ),
            EconomicViolation::PoolTooLarge => text == "Rewards pool suspiciously large"@,
        }
    }

    /// The finding as a line of text.
    pub fn message(&self) -> (text: String)
        ensures
            self.reads(text@),
    {
        match self {
            EconomicViolation::StakeInflation { distributed, allowed } => {
                let left = numbered("Stake inflation detected: ", *distributed, " > ");
                numbered(left.as_str(), *allowed, "")
            },
            EconomicViolation::ZeroBalance { node } => numbered(
                "Node ",
                *node as u128,
                " has zero balance but is active",
            ),
            EconomicViolation::PoolTooLarge => String::from_str("Rewards pool suspiciously large"),
        }
    }
}

impl EconomicError {
    /// The refusal as a line of text.
    pub fn message(&self) -> (text: String)
        ensures
            text@ == match *self {
                EconomicError::InsufficientRewards => "Insufficient rewards in pool"@,
                EconomicError::NoStake => "Validator has no stake to slash"@,
                EconomicError::InsufficientBalance => "Insufficient balance for withdrawal"@,
                EconomicError::OutOfRange => "Amount out of range"@,
            },
    {
        match self {
            EconomicError::InsufficientRewards => String::from_str("Insufficient rewards in pool"),
            EconomicError::NoStake => String::from_str("Validator has no stake to slash"),
            EconomicError::InsufficientBalance => String::from_str("Insufficient balance for withdrawal"),
            EconomicError::OutOfRange => String::from_str("Amount out of range"),
        }
    }
}

impl AlpenglowState {
    /// What the standing checks on the books find, each finding as a line of text.
    pub fn validate_economic_invariants(&self) -> (violations: Vec<String>)
        requires
            self.wf(),
        ensures
            violations@.len() == self.deep_view().economic_violations().len(),
            forall|i: int|
                0 <= i < violations@.len() ==> self.deep_view().economic_violations()[i].reads(
                    (#[trigger] violations@[i])@,
                ),
    {
        let found = self.economic_violations();
        let mut violations: Vec<String> = Vec::new();
        let mut i: usize = 0;
        while i < found.len()
            invariant
                i <= found@.len(),
                violations@.len() == i,
                forall|j: int| 0 <= j < i ==> found@[j].reads((#[trigger] violations@[j])@),
            decreases found@.len() - i,
        {
            violations.push(found[i].message());
            i += 1;
        }
        violations
    }
}

} // verus!
