use alpenglow::{
    AlpenglowAction, AlpenglowModel, AlpenglowState, Block, ByzantineStrategy, EconomicError,
    EconomicViolation, Fraction, NodeStatus, RewardDistribution, SlashingData, SlashingEvidence,
    SlashingSeverity, SlashingType, SortedMap, Vote, VotePath,
};

fn stakes(pairs: &[(u32, u64)]) -> SortedMap<u32, u64> {
    let mut map = SortedMap::new();
    for (node, stake) in pairs {
        map.insert(*node, *stake);
    }
    map
}

fn frac(x: f64) -> Fraction {
    Fraction::from_micros((x * 1_000_000.0).round() as u64)
}

fn step(state: &AlpenglowState, action: AlpenglowAction) -> Option<AlpenglowState> {
    AlpenglowModel::new().next_state(state, action)
}

fn balance(state: &AlpenglowState, node: u32) -> u64 {
    *state.economic_state.validator_balances.get(&node).unwrap()
}

fn stake(state: &AlpenglowState, node: u32) -> u64 {
    *state.stake_distribution.get(&node).unwrap()
}

fn evidence(violator: u32, severity: SlashingSeverity) -> SlashingEvidence {
    SlashingEvidence {
        evidence_type: SlashingType::Equivocation,
        violator,
        slot: 1,
        evidence_data: SlashingData::InvalidBlock {
            block: Block { id: 1, parent: 0 },
            violation: "Test violation".to_string(),
        },
        severity,
        reporter: None,
        timestamp: 0,
    }
}

#[test]
fn test_economic_state_basic_functionality() {
    let nodes = vec![0, 1, 2];
    let stake_dist = stakes(&[(0, 1000), (1, 1500), (2, 2000)]);

    let state = AlpenglowState::new(nodes, stake_dist);

    assert_eq!(state.economic_state.rewards_pool, 3000);
    assert_eq!(state.economic_state.total_slashed, 0);
    assert_eq!(state.economic_state.validator_balances.len(), 3);

    let violations = state.validate_economic_invariants();
    assert!(violations.is_empty());
}

#[test]
fn test_economic_actions_integration() {
    let nodes = vec![0, 1];
    let stake_dist = stakes(&[(0, 1000), (1, 1500)]);

    let state = AlpenglowState::new(nodes, stake_dist);
    let model = AlpenglowModel::new();

    let actions = vec![
        AlpenglowAction::StakeDeposit { node: 0, amount: 500 },
        AlpenglowAction::StakeWithdrawal { node: 0, amount: 100 },
        AlpenglowAction::UpdateEconomicParameters {
            new_reward_rate: frac(0.06),
            new_slashing_rate: frac(0.12),
        },
    ];

    for action in actions {
        let result = model.next_state(&state, action);
        assert!(result.is_some(), "Economic action should produce valid state transition");
    }
}

#[test]
fn test_economic_state_initialization() {
    let nodes = vec![0, 1, 2];
    let stake_dist = stakes(&[(0, 1000), (1, 1500), (2, 2000)]);

    let state = AlpenglowState::new(nodes.clone(), stake_dist.clone());

    assert_eq!(state.economic_state.rewards_pool, 3000);
    assert_eq!(state.economic_state.total_slashed, 0);
    assert_eq!(state.economic_state.reward_rate, frac(0.05));
    assert_eq!(state.economic_state.slashing_rate, frac(0.1));
    assert_eq!(state.economic_state.validator_balances, stake_dist);
}

#[test]
fn test_reward_calculation_and_distribution() {
    let nodes = vec![0, 1, 2];
    let stake_dist = stakes(&[(0, 1000), (1, 1500), (2, 2000)]);

    let mut state = AlpenglowState::new(nodes, stake_dist);
    let participating_nodes = vec![0, 1, 2];

    let rewards = state.calculate_epoch_rewards(1, &participating_nodes);

    assert_eq!(rewards.epoch, 1);
    assert!(rewards.total_rewards > 0);
    assert_eq!(rewards.validator_rewards.len(), 3);
    assert_eq!(rewards.participation_rewards.len(), 3);
    assert_eq!(rewards.performance_bonuses.len(), 3);

    let initial_pool = state.economic_state.rewards_pool;
    let result = state.distribute_rewards(&rewards);
    assert!(result.is_ok());
    assert_eq!(state.economic_state.rewards_pool, initial_pool - rewards.total_rewards);

    for i in 0..state.stake_distribution.len() {
        let node = state.stake_distribution.key_at(i);
        let initial_stake = *state.stake_distribution.value_at(i);
        let new_balance = balance(&state, node);
        assert!(new_balance >= initial_stake, "Node {} balance should increase", node);
    }
}

#[test]
fn test_slashing_detection_and_application() {
    let nodes = vec![0, 1, 2];
    let stake_dist = stakes(&[(0, 1000), (1, 1500), (2, 2000)]);

    let mut state = AlpenglowState::new(nodes, stake_dist);

    let vote1 = Vote { node: 1, slot: 2, block: 10, path: VotePath::Fast, stake: 1500 };
    let vote2 = Vote { node: 1, slot: 2, block: 11, path: VotePath::Fast, stake: 1500 };

    let evidence = state.detect_double_voting(&vote1, &vote2);
    assert!(evidence.is_some());

    let evidence = evidence.unwrap();
    assert_eq!(evidence.violator, 1);
    assert_eq!(evidence.evidence_type, SlashingType::DoubleVoting);
    assert_eq!(evidence.severity, SlashingSeverity::Severe);

    let initial_balance = balance(&state, 1);
    let slash_result = state.apply_slashing(&evidence);
    assert!(slash_result.is_ok());

    let slashed_amount = slash_result.unwrap();
    let new_balance = balance(&state, 1);

    assert_eq!(new_balance, initial_balance - slashed_amount);
    assert_eq!(state.economic_state.total_slashed, slashed_amount);
    assert_eq!(slashed_amount, (initial_balance as f64 * 0.30) as u64);
    assert_eq!(state.economic_state.slashing_evidence.len(), 1);
}

#[test]
fn test_slashing_severities() {
    let nodes = vec![0, 1, 2, 3];
    let stake_dist = stakes(&[(0, 1000), (1, 1000), (2, 1000), (3, 1000)]);

    let mut state = AlpenglowState::new(nodes, stake_dist);

    let severities = vec![
        (SlashingSeverity::Minor, 0.05),
        (SlashingSeverity::Moderate, 0.15),
        (SlashingSeverity::Severe, 0.30),
        (SlashingSeverity::Critical, 0.50),
    ];

    for (node_id, (severity, expected_rate)) in severities.iter().enumerate() {
        let evidence = evidence(node_id as u32, severity.clone());

        let initial_balance = balance(&state, node_id as u32);
        let slash_result = state.apply_slashing(&evidence);
        assert!(slash_result.is_ok());

        let slashed_amount = slash_result.unwrap();
        let expected_slash = (initial_balance as f64 * expected_rate) as u64;
        assert_eq!(slashed_amount, expected_slash, "Wrong slash amount for {:?}", severity);

        if matches!(severity, SlashingSeverity::Critical) {
            assert!(matches!(state.status.get(&(node_id as u32)).unwrap(), NodeStatus::Byzantine(_)));
        }
    }
}

#[test]
fn test_stake_deposit_and_withdrawal() {
    let nodes = vec![0, 1];
    let stake_dist = stakes(&[(0, 1000), (1, 1500)]);

    let mut state = AlpenglowState::new(nodes, stake_dist);

    let initial_balance = balance(&state, 0);
    let initial_stake = stake(&state, 0);

    let deposit_amount = 500;
    let deposit_action = AlpenglowAction::StakeDeposit { node: 0, amount: deposit_amount };

    if let Some(new_state) = step(&state, deposit_action) {
        assert_eq!(balance(&new_state, 0), initial_balance + deposit_amount);
        assert_eq!(stake(&new_state, 0), initial_stake + deposit_amount);
        state = new_state;
    }

    let withdrawal_amount = 200;
    let withdrawal_action = AlpenglowAction::StakeWithdrawal { node: 0, amount: withdrawal_amount };

    if let Some(new_state) = step(&state, withdrawal_action) {
        assert_eq!(balance(&new_state, 0), initial_balance + deposit_amount - withdrawal_amount);
        assert_eq!(stake(&new_state, 0), initial_stake + deposit_amount - withdrawal_amount);
    }
}

#[test]
fn test_reward_withdrawal() {
    let nodes = vec![0, 1];
    let stake_dist = stakes(&[(0, 1000), (1, 1500)]);

    let mut state = AlpenglowState::new(nodes, stake_dist);

    let rewards = RewardDistribution {
        epoch: 1,
        total_rewards: 500,
        validator_rewards: stakes(&[(0, 300), (1, 200)]),
        performance_bonuses: stakes(&[(0, 50), (1, 50)]),
        participation_rewards: stakes(&[(0, 25), (1, 25)]),
    };

    state.distribute_rewards(&rewards).unwrap();
    let balance_after_rewards = balance(&state, 0);

    let withdrawal_amount = 100;
    let withdrawal_action = AlpenglowAction::WithdrawRewards { node: 0, amount: withdrawal_amount };

    if let Some(new_state) = step(&state, withdrawal_action) {
        assert_eq!(balance(&new_state, 0), balance_after_rewards - withdrawal_amount);
    }
}

#[test]
fn test_economic_invariant_validation() {
    let nodes = vec![0, 1, 2];
    let stake_dist = stakes(&[(0, 1000), (1, 1500), (2, 2000)]);

    let state = AlpenglowState::new(nodes, stake_dist);

    let violations = state.validate_economic_invariants();
    assert!(violations.is_empty(), "Fresh state should have no violations: {:?}", violations);

    let mut bad_state = state.clone();
    bad_state.economic_state.validator_balances.insert(0, 0);

    let violations = bad_state.validate_economic_invariants();
    assert!(!violations.is_empty(), "Should detect zero balance violation");
    assert!(violations.iter().any(|v| v.contains("zero balance")));
}

#[test]
fn test_economic_game_theory_scenarios() {
    let nodes = vec![0, 1, 2, 3];
    let stake_dist = stakes(&[(0, 2000), (1, 1500), (2, 1000), (3, 500)]);

    let mut state = AlpenglowState::new(nodes, stake_dist);

    let high_stake_evidence = SlashingEvidence {
        evidence_type: SlashingType::DoubleVoting,
        violator: 0,
        slot: 1,
        evidence_data: SlashingData::DoubleVote {
            vote1: Vote { node: 0, slot: 1, block: 10, path: VotePath::Fast, stake: 2000 },
            vote2: Vote { node: 0, slot: 1, block: 11, path: VotePath::Fast, stake: 2000 },
        },
        severity: SlashingSeverity::Severe,
        reporter: Some(1),
        timestamp: 100,
    };

    let initial_high_balance = balance(&state, 0);
    state.apply_slashing(&high_stake_evidence).unwrap();
    let high_stake_loss = initial_high_balance - balance(&state, 0);

    let low_stake_evidence = SlashingEvidence {
        evidence_type: SlashingType::DoubleVoting,
        violator: 3,
        slot: 1,
        evidence_data: SlashingData::DoubleVote {
            vote1: Vote { node: 3, slot: 1, block: 10, path: VotePath::Fast, stake: 500 },
            vote2: Vote { node: 3, slot: 1, block: 11, path: VotePath::Fast, stake: 500 },
        },
        severity: SlashingSeverity::Severe,
        reporter: Some(1),
        timestamp: 200,
    };

    let initial_low_balance = balance(&state, 3);
    state.apply_slashing(&low_stake_evidence).unwrap();
    let low_stake_loss = initial_low_balance - balance(&state, 3);

    assert!(high_stake_loss > low_stake_loss);

    let high_percentage = high_stake_loss as f64 / initial_high_balance as f64;
    let low_percentage = low_stake_loss as f64 / initial_low_balance as f64;
    assert!((high_percentage - low_percentage).abs() < 0.01);

    assert_eq!(state.economic_state.total_slashed, high_stake_loss + low_stake_loss);
    assert_eq!(state.economic_state.slashing_evidence.len(), 2);
}

#[test]
fn test_validator_economics_at_scale() {
    let mut nodes = vec![];
    let mut stake_dist = SortedMap::new();

    for i in 0..20 {
        nodes.push(i);
        stake_dist.insert(i, 1000 + (i as u64 * 100));
    }

    let mut state = AlpenglowState::new(nodes.clone(), stake_dist);

    let participating_nodes: Vec<_> = nodes.iter().take(15).copied().collect();
    let rewards = state.calculate_epoch_rewards(1, &participating_nodes);

    assert_eq!(rewards.validator_rewards.len(), 15);
    assert!(rewards.total_rewards > 0);

    let initial_pool = state.economic_state.rewards_pool;
    state.distribute_rewards(&rewards).unwrap();

    assert!(state.economic_state.rewards_pool < initial_pool);

    for &node in &participating_nodes {
        let initial_stake = stake(&state, node);
        let current_balance = balance(&state, node);
        assert!(current_balance >= initial_stake);
    }

    for node in 15..20 {
        let initial_stake = stake(&state, node);
        let current_balance = balance(&state, node);
        assert_eq!(current_balance, initial_stake);
    }
}

#[test]
fn test_economic_attack_resistance() {
    let nodes = vec![0, 1, 2, 3];
    let stake_dist = stakes(&[(0, 1000), (1, 1000), (2, 1000), (3, 1000)]);

    let mut state = AlpenglowState::new(nodes, stake_dist);

    let attackers = vec![0, 1];

    for &attacker in &attackers {
        let evidence = SlashingEvidence {
            evidence_type: SlashingType::LongRangeAttack,
            violator: attacker,
            slot: 1,
            evidence_data: SlashingData::NetworkAttack {
                attack_details: "Coordinated long-range attack".to_string(),
            },
            severity: SlashingSeverity::Critical,
            reporter: Some(2),
            timestamp: 100,
        };

        state.apply_slashing(&evidence).unwrap();

        assert!(matches!(state.status.get(&attacker).unwrap(), NodeStatus::Byzantine(_)));
    }

    let total_attack_stake: u64 = attackers.iter().map(|&id| stake(&state, id)).sum();
    let expected_min_slash = (total_attack_stake as f64 * 0.5) as u64;
    assert!(state.economic_state.total_slashed >= expected_min_slash);

    for honest_validator in vec![2, 3] {
        assert!(matches!(state.status.get(&honest_validator).unwrap(), NodeStatus::Honest));
        assert_eq!(balance(&state, honest_validator), stake(&state, honest_validator));
    }
}

// The books, figure by figure.

#[test]
fn slashing_severity_table() {
    let mut state = AlpenglowState::new(vec![0, 1, 2, 3], stakes(&[(0, 1000), (1, 1000), (2, 1000), (3, 1000)]));
    let table = [
        (SlashingSeverity::Minor, 50),
        (SlashingSeverity::Moderate, 150),
        (SlashingSeverity::Severe, 300),
        (SlashingSeverity::Critical, 500),
    ];
    let mut total = 0;
    for (node, (severity, amount)) in table.iter().enumerate() {
        assert_eq!(state.apply_slashing(&evidence(node as u32, *severity)), Ok(*amount));
        assert_eq!(balance(&state, node as u32), 1000 - amount);
        total += amount;
        assert_eq!(state.economic_state.total_slashed, total);
    }
    assert_eq!(*state.status.get(&3).unwrap(), NodeStatus::Byzantine(ByzantineStrategy::Equivocation));
    assert_eq!(*state.status.get(&2).unwrap(), NodeStatus::Honest);
    assert_eq!(state.economic_state.slashing_evidence.len(), 4);
}

#[test]
fn slashing_is_on_the_current_balance_and_rounds_down() {
    let mut state = AlpenglowState::new(vec![0], stakes(&[(0, 39)]));
    // 5% of 39 is 1.95
    assert_eq!(state.apply_slashing(&evidence(0, SlashingSeverity::Minor)), Ok(1));
    // 30% of 38 is 11.4
    assert_eq!(state.apply_slashing(&evidence(0, SlashingSeverity::Severe)), Ok(11));
    assert_eq!(balance(&state, 0), 27);
    assert_eq!(state.economic_state.total_slashed, 12);
}

#[test]
fn slashing_without_stake_is_refused_and_logged() {
    let mut state = AlpenglowState::new(vec![0, 1], stakes(&[(0, 0), (1, 10)]));
    let before = state.clone();
    assert_eq!(state.apply_slashing(&evidence(0, SlashingSeverity::Critical)), Err(EconomicError::NoStake));
    assert_eq!(state.apply_slashing(&evidence(9, SlashingSeverity::Critical)), Err(EconomicError::NoStake));
    assert_eq!(state, before);
    let next = step(&state, AlpenglowAction::SlashValidator { evidence: evidence(0, SlashingSeverity::Minor) }).unwrap();
    assert_eq!(next.error_log, vec![EconomicError::NoStake]);
    assert_eq!(next.status, state.status);
    let mut full = state.clone();
    full.economic_state.total_slashed = u64::MAX;
    assert_eq!(full.apply_slashing(&evidence(1, SlashingSeverity::Critical)), Err(EconomicError::OutOfRange));
}

#[test]
fn distribution_beyond_the_pool_is_refused_and_logged() {
    let mut state = AlpenglowState::new(vec![0, 1], stakes(&[(0, 1000), (1, 1500)]));
    let greedy = RewardDistribution {
        epoch: 1,
        total_rewards: 2001,
        validator_rewards: stakes(&[(0, 1)]),
        performance_bonuses: SortedMap::new(),
        participation_rewards: SortedMap::new(),
    };
    let before = state.clone();
    assert_eq!(state.distribute_rewards(&greedy), Err(EconomicError::InsufficientRewards));
    assert_eq!(state, before);
    let next = step(&state, AlpenglowAction::DistributeRewards { epoch: 1, rewards: greedy }).unwrap();
    assert_eq!(next.error_log, vec![EconomicError::InsufficientRewards]);
    assert_eq!(next.economic_state, state.economic_state);
    let overflow = RewardDistribution {
        epoch: 1,
        total_rewards: 0,
        validator_rewards: stakes(&[(0, u64::MAX)]),
        performance_bonuses: SortedMap::new(),
        participation_rewards: SortedMap::new(),
    };
    assert_eq!(state.distribute_rewards(&overflow), Err(EconomicError::OutOfRange));
    assert_eq!(state, before);
}

#[test]
fn distribution_credits_every_amount() {
    let mut state = AlpenglowState::new(vec![0, 1], stakes(&[(0, 1000), (1, 1500)]));
    let rewards = RewardDistribution {
        epoch: 1,
        total_rewards: 500,
        validator_rewards: stakes(&[(0, 300), (1, 200)]),
        performance_bonuses: stakes(&[(0, 50), (7, 5)]),
        participation_rewards: stakes(&[(1, 25)]),
    };
    assert_eq!(state.distribute_rewards(&rewards), Ok(()));
    assert_eq!(balance(&state, 0), 1350);
    assert_eq!(balance(&state, 1), 1725);
    assert_eq!(balance(&state, 7), 5);
    assert_eq!(state.economic_state.rewards_pool, 1500);
}

#[test]
fn epoch_rewards_by_formula() {
    let mut state = AlpenglowState::new(vec![0, 1, 2], stakes(&[(0, 1000), (1, 1500), (2, 2000)]));
    state.status.insert(1, NodeStatus::Crashed { since: 0 });
    let rewards = state.calculate_epoch_rewards(4, &[0, 1, 2]);
    // 5% of 3000, a third each, half for taking part
    assert_eq!(rewards.epoch, 4);
    assert_eq!(rewards.total_rewards, 150);
    assert_eq!(rewards.validator_rewards, stakes(&[(0, 50), (1, 50), (2, 50)]));
    assert_eq!(rewards.participation_rewards, stakes(&[(0, 25), (1, 25), (2, 25)]));
    // floor(50 * stake / (5 * 4500)), for the honest ones
    assert_eq!(rewards.performance_bonuses, stakes(&[(0, 2), (2, 4)]));
    let none = state.calculate_epoch_rewards(5, &[]);
    assert_eq!(none.total_rewards, 150);
    assert!(none.validator_rewards.is_empty());
}

#[test]
fn double_voting_needs_the_same_node_slot_and_path() {
    let state = AlpenglowState::new(vec![0, 1], stakes(&[(0, 1000), (1, 1500)]));
    let base = Vote { node: 1, slot: 2, block: 10, path: VotePath::Fast, stake: 1500 };
    let found = state.detect_double_voting(&base, &Vote { block: 11, ..base }).unwrap();
    assert_eq!(found.slot, 2);
    assert_eq!(found.reporter, None);
    assert_eq!(found.timestamp, 0);
    assert_eq!(found.evidence_data, SlashingData::DoubleVote { vote1: base, vote2: Vote { block: 11, ..base } });
    assert!(state.detect_double_voting(&base, &base).is_none());
    assert!(state.detect_double_voting(&base, &Vote { block: 11, node: 0, ..base }).is_none());
    assert!(state.detect_double_voting(&base, &Vote { block: 11, slot: 3, ..base }).is_none());
    assert!(state.detect_double_voting(&base, &Vote { block: 11, path: VotePath::Slow, ..base }).is_none());
}

#[test]
fn withdrawal_beyond_the_balance_is_logged() {
    let state = AlpenglowState::new(vec![0, 1], stakes(&[(0, 1000), (1, 1500)]));
    let next = step(&state, AlpenglowAction::StakeWithdrawal { node: 0, amount: 1001 }).unwrap();
    assert_eq!(next.error_log, vec![EconomicError::InsufficientBalance]);
    assert_eq!(next.economic_state, state.economic_state);
    assert_eq!(next.stake_distribution, state.stake_distribution);
    let quiet = step(&state, AlpenglowAction::WithdrawRewards { node: 0, amount: 1001 }).unwrap();
    assert_eq!(quiet, state);
    let exact = step(&state, AlpenglowAction::StakeWithdrawal { node: 0, amount: 1000 }).unwrap();
    assert_eq!(balance(&exact, 0), 0);
    assert_eq!(stake(&exact, 0), 0);
}

#[test]
fn deposit_registers_a_new_node() {
    let state = AlpenglowState::new(vec![0, 1], stakes(&[(0, 1000), (1, 1500)]));
    let next = step(&state, AlpenglowAction::StakeDeposit { node: 5, amount: 70 }).unwrap();
    assert_eq!(next.nodes, vec![0, 1, 5]);
    assert_eq!(balance(&next, 5), 70);
    assert_eq!(stake(&next, 5), 70);
    assert_eq!(next.total_stake(), 2570);
    let full = step(&state, AlpenglowAction::StakeDeposit { node: 0, amount: u64::MAX }).unwrap();
    assert_eq!(full, state);
}

#[test]
fn the_standing_checks_name_what_they_find() {
    let mut state = AlpenglowState::new(vec![0, 1], stakes(&[(0, 1000), (1, 1500)]));
    assert!(state.economic_violations().is_empty());
    state.economic_state.validator_balances.insert(1, 0);
    state.economic_state.validator_balances.insert(0, 9000);
    state.economic_state.rewards_pool = 5001;
    assert_eq!(
        state.economic_violations(),
        vec![
            EconomicViolation::StakeInflation { distributed: 9000, allowed: 7501 },
            EconomicViolation::ZeroBalance { node: 1 },
            EconomicViolation::PoolTooLarge,
        ]
    );
    assert_eq!(
        state.validate_economic_invariants(),
        vec![
            "Stake inflation detected: 9000 > 7501".to_string(),
            "Node 1 has zero balance but is active".to_string(),
            "Rewards pool suspiciously large".to_string(),
        ]
    );
    assert_eq!(EconomicError::NoStake.message(), "Validator has no stake to slash");
    assert_eq!(EconomicError::InsufficientRewards.message(), "Insufficient rewards in pool");
}

#[test]
fn the_books_do_not_grow_without_deposits_and_distributions() {
    let start = AlpenglowState::new(vec![0, 1, 2], stakes(&[(0, 1000), (1, 1500), (2, 2000)]));
    let value = |s: &AlpenglowState| {
        let balances: u128 = (0..s.economic_state.validator_balances.len())
            .map(|i| *s.economic_state.validator_balances.value_at(i) as u128)
            .sum();
        balances + s.economic_state.rewards_pool as u128 - s.economic_state.total_slashed as u128
    };
    let initial = value(&start);
    assert_eq!(initial, 4500 + 3000);
    let script = vec![
        AlpenglowAction::SlashValidator { evidence: evidence(1, SlashingSeverity::Severe) },
        AlpenglowAction::WithdrawRewards { node: 0, amount: 10 },
        AlpenglowAction::StakeWithdrawal { node: 2, amount: 500 },
        AlpenglowAction::ReportSlashing { reporter: 0, evidence: evidence(2, SlashingSeverity::Minor) },
        AlpenglowAction::UpdateEconomicParameters { new_reward_rate: frac(0.5), new_slashing_rate: frac(0.5) },
        AlpenglowAction::AdvanceTime { delta: 10 },
    ];
    let mut state = start;
    let mut last = initial;
    for action in script {
        state = step(&state, action).unwrap();
        assert!(value(&state) <= last);
        last = value(&state);
    }
    assert_eq!(last, initial - 2 * 450 - 10 - 500);
}
