use alpenglow::byzantine::{execute_byzantine_strategy, execute_coalition_attack};
use alpenglow::{
    AlpenglowAction, AlpenglowModel, AlpenglowState, AttackMetrics, AttackPhase, ByzantineCoalition,
    ByzantineStrategy, CertManipulationType, CoalitionAttackType, CoalitionState, EventType, Fraction,
    NodeStatus, SortedMap, Vote, VotePath,
};

fn stakes(pairs: &[(u32, u64)]) -> SortedMap<u32, u64> {
    let mut map = SortedMap::new();
    for (node, stake) in pairs {
        map.insert(*node, *stake);
    }
    map
}

fn frac(x: f64) -> Fraction {
    Fraction::from_micros((x * 1_000_000.0).round() as u64)
}

fn step(state: &AlpenglowState, action: AlpenglowAction) -> Option<AlpenglowState> {
    AlpenglowModel::new().next_state(state, action)
}

fn votes_of(state: &AlpenglowState, node: u32, slot: u32) -> &Vec<Vote> {
    state.votes.get(&node).unwrap().get(&slot).unwrap()
}

fn vote(node: u32, slot: u32, block: u32, path: VotePath, stake: u64) -> Vote {
    Vote { node, slot, block, path, stake }
}

#[test]
fn test_selective_equivocation() {
    let nodes = vec![1, 2, 3, 4];
    let mut state = AlpenglowState::new(nodes, stakes(&[(1, 500), (2, 100), (3, 100), (4, 100)]));

    state.status.insert(
        1,
        NodeStatus::Byzantine(ByzantineStrategy::SelectiveEquivocation {
            min_stake_threshold: 300,
            target_slots: vec![1, 3],
        }),
    );

    let byzantine_action = AlpenglowAction::ByzantineVote {
        node: 1,
        strategy: ByzantineStrategy::SelectiveEquivocation { min_stake_threshold: 300, target_slots: vec![1, 3] },
        slot: 1,
    };

    let new_state = step(&state, byzantine_action).unwrap();

    let node1_slot1_votes = votes_of(&new_state, 1, 1);
    assert!(node1_slot1_votes.len() >= 2, "High-stake node should equivocate on target slot");

    let byzantine_action_non_target = AlpenglowAction::ByzantineVote {
        node: 1,
        strategy: ByzantineStrategy::SelectiveEquivocation { min_stake_threshold: 300, target_slots: vec![1, 3] },
        slot: 2,
    };

    let new_state2 = step(&state, byzantine_action_non_target).unwrap();

    let node1_slot2_votes = votes_of(&new_state2, 1, 2);
    assert!(node1_slot2_votes.len() <= 1, "Node should behave honestly on non-target slot");
}

#[test]
fn test_adaptive_behavior() {
    let nodes = vec![1, 2, 3];
    let mut state = AlpenglowState::new(nodes, stakes(&[(1, 100), (2, 100), (3, 100)]));

    state.status.insert(
        1,
        NodeStatus::Byzantine(ByzantineStrategy::AdaptiveBehavior {
            primary_strategy: Box::new(ByzantineStrategy::Equivocation),
            fallback_strategy: Box::new(ByzantineStrategy::WithholdVotes),
            adaptation_threshold: 2,
        }),
    );

    state.timeouts.get_mut(&1).unwrap().get_mut(&1).unwrap().count = 3;

    let byzantine_action = AlpenglowAction::ByzantineVote {
        node: 1,
        strategy: ByzantineStrategy::AdaptiveBehavior {
            primary_strategy: Box::new(ByzantineStrategy::Equivocation),
            fallback_strategy: Box::new(ByzantineStrategy::WithholdVotes),
            adaptation_threshold: 2,
        },
        slot: 1,
    };

    let new_state = step(&state, byzantine_action).unwrap();

    let node1_votes = votes_of(&new_state, 1, 1);
    assert_eq!(node1_votes.len(), 0, "Node should withhold votes due to adaptation");
}

#[test]
fn test_coalition_formation() {
    let nodes = vec![1, 2, 3, 4, 5];
    let mut state =
        AlpenglowState::new(nodes, stakes(&[(1, 100), (2, 100), (3, 100), (4, 100), (5, 100)]));

    state.status.insert(1, NodeStatus::Byzantine(ByzantineStrategy::Equivocation));
    state.status.insert(2, NodeStatus::Byzantine(ByzantineStrategy::Equivocation));
    state.status.insert(3, NodeStatus::Byzantine(ByzantineStrategy::RandomVotes));

    let coalition_action = AlpenglowAction::FormCoalition {
        members: vec![1, 2, 3],
        strategy: CoalitionAttackType::SplitVote { target_blocks: vec![0, 1, 2] },
    };

    let new_state = step(&state, coalition_action).unwrap();

    assert_eq!(new_state.byzantine_coalitions.len(), 1, "Coalition should be formed");
    assert_eq!(new_state.byzantine_coalitions[0].members.len(), 3, "Coalition should have 3 members");
    assert!(new_state.coalition_state.contains_key(&0), "Coalition state should be tracked");
    assert!(new_state.coalition_state.get(&0).unwrap().active, "Coalition should be active");
}

#[test]
fn test_coalition_coordination() {
    let nodes = vec![1, 2, 3, 4];
    let mut state = AlpenglowState::new(nodes, stakes(&[(1, 100), (2, 100), (3, 100), (4, 100)]));

    state.byzantine_coalitions.push(ByzantineCoalition {
        members: vec![1, 2],
        strategy: CoalitionAttackType::StrategicTargeting {
            high_priority_slots: vec![1, 2],
            disruption_threshold: frac(0.7),
        },
        coordination_history: Vec::new(),
        total_stake: 200,
        formation_time: 0,
    });

    state.coalition_state.insert(
        0,
        CoalitionState {
            active: true,
            current_phase: AttackPhase::Preparation,
            success_metrics: AttackMetrics {
                slots_disrupted: 0,
                certificates_prevented: 0,
                timeouts_caused: 0,
                economic_damage: 0,
            },
            adaptation_count: 0,
        },
    );

    let coordination_action = AlpenglowAction::CoordinateAttack { coalition_index: 0, target_slot: 1 };

    let new_state = step(&state, coordination_action).unwrap();

    assert_eq!(
        new_state.coalition_state.get(&0).unwrap().current_phase,
        AttackPhase::Execution,
        "Coalition should move to execution phase"
    );

    assert!(
        !new_state.byzantine_coalitions[0].coordination_history.is_empty(),
        "Coordination history should be recorded"
    );
}

#[test]
fn test_timing_attack() {
    let nodes = vec![1, 2, 3];
    let mut state = AlpenglowState::new(nodes, stakes(&[(1, 100), (2, 100), (3, 100)]));
    state.status.insert(
        1,
        NodeStatus::Byzantine(ByzantineStrategy::TimingAttack {
            delay_votes: true,
            max_delay: 500,
            target_path: Some(VotePath::Fast),
        }),
    );

    let initial_time = state.global_time;

    let byzantine_action = AlpenglowAction::ByzantineVote {
        node: 1,
        strategy: ByzantineStrategy::TimingAttack {
            delay_votes: true,
            max_delay: 500,
            target_path: Some(VotePath::Fast),
        },
        slot: 1,
    };

    let new_state = step(&state, byzantine_action).unwrap();

    assert!(new_state.global_time > initial_time, "Time should advance due to timing attack");

    let node1_votes = votes_of(&new_state, 1, 1);
    assert!(node1_votes.len() > 0, "Vote should be cast after delay");
    assert_eq!(node1_votes[0].path, VotePath::Fast, "Should target Fast path");
}

#[test]
fn test_stake_based_attack() {
    let nodes = vec![1, 2, 3];
    let mut state = AlpenglowState::new(nodes, stakes(&[(1, 1000), (2, 100), (3, 100)]));
    state.status.insert(
        1,
        NodeStatus::Byzantine(ByzantineStrategy::StakeBasedAttack {
            reserve_stake_for_critical_slots: true,
            activation_threshold: 500,
            min_profit_margin: 50,
        }),
    );

    let byzantine_action_critical = AlpenglowAction::ByzantineVote {
        node: 1,
        strategy: ByzantineStrategy::StakeBasedAttack {
            reserve_stake_for_critical_slots: true,
            activation_threshold: 500,
            min_profit_margin: 50,
        },
        slot: 3,
    };

    let new_state = step(&state, byzantine_action_critical).unwrap();

    let node1_critical_votes = votes_of(&new_state, 1, 3);
    assert!(node1_critical_votes.len() >= 2, "Should cast multiple votes on critical slots");

    let byzantine_action_regular = AlpenglowAction::ByzantineVote {
        node: 1,
        strategy: ByzantineStrategy::StakeBasedAttack {
            reserve_stake_for_critical_slots: true,
            activation_threshold: 500,
            min_profit_margin: 50,
        },
        slot: 2,
    };

    let new_state2 = step(&state, byzantine_action_regular).unwrap();

    let node1_regular_votes = votes_of(&new_state2, 1, 2);
    assert_eq!(node1_regular_votes.len(), 1, "Should be conservative on regular slots");
}

#[test]
fn test_strategy_adaptation_actions() {
    let nodes = vec![1, 2, 3];
    let mut state = AlpenglowState::new(nodes, stakes(&[(1, 100), (2, 100), (3, 100)]));

    state.status.insert(1, NodeStatus::Byzantine(ByzantineStrategy::Equivocation));
    state.status.insert(2, NodeStatus::Byzantine(ByzantineStrategy::WithholdVotes));

    let mut actions = Vec::new();
    AlpenglowModel::new().actions(&state, &mut actions);

    let adaptation_actions: Vec<_> =
        actions.iter().filter(|action| matches!(action, AlpenglowAction::AdaptStrategy { .. })).collect();

    assert!(!adaptation_actions.is_empty(), "Should have strategy adaptation actions");

    if let AlpenglowAction::AdaptStrategy { node, new_strategy: _, reason: _ } = &adaptation_actions[0] {
        let adapt_action = adaptation_actions[0].clone();
        let new_state = step(&state, adapt_action).unwrap();

        if let NodeStatus::Byzantine(updated_strategy) = new_state.status.get(node).unwrap() {
            assert_ne!(*updated_strategy, ByzantineStrategy::Equivocation, "Strategy should change");
        }
    }
}

// What each strategy emits.

#[test]
fn equivocation_emits_two_fast_votes() {
    let (delay, votes) = execute_byzantine_strategy(7, &ByzantineStrategy::Equivocation, 2, 40, 0);
    assert_eq!(delay, 0);
    assert_eq!(votes, vec![vote(7, 2, 0, VotePath::Fast, 40), vote(7, 2, 1, VotePath::Fast, 40)]);
}

#[test]
fn random_votes_pick_the_block_from_node_and_slot() {
    let (_, even) = execute_byzantine_strategy(3, &ByzantineStrategy::RandomVotes, 5, 10, 0);
    assert_eq!(even, vec![vote(3, 5, 0, VotePath::Fast, 10)]);
    let (_, odd) = execute_byzantine_strategy(3, &ByzantineStrategy::RandomVotes, 4, 10, 0);
    assert_eq!(odd, vec![vote(3, 4, 1, VotePath::Fast, 10)]);
    let (_, wide) = execute_byzantine_strategy(u32::MAX, &ByzantineStrategy::RandomVotes, u32::MAX, 10, 0);
    assert_eq!(wide, vec![vote(u32::MAX, u32::MAX, 0, VotePath::Fast, 10)]);
}

#[test]
fn withholding_emits_nothing() {
    let (delay, votes) = execute_byzantine_strategy(3, &ByzantineStrategy::WithholdVotes, 5, 10, 0);
    assert_eq!(delay, 0);
    assert!(votes.is_empty());
}

#[test]
fn selective_equivocation_emits_six_votes_on_target() {
    let strategy = ByzantineStrategy::SelectiveEquivocation { min_stake_threshold: 300, target_slots: vec![1, 3] };
    let (_, votes) = execute_byzantine_strategy(1, &strategy, 3, 300, 0);
    assert_eq!(
        votes,
        vec![
            vote(1, 3, 0, VotePath::Fast, 300),
            vote(1, 3, 0, VotePath::Slow, 300),
            vote(1, 3, 1, VotePath::Fast, 300),
            vote(1, 3, 1, VotePath::Slow, 300),
            vote(1, 3, 2, VotePath::Fast, 300),
            vote(1, 3, 2, VotePath::Slow, 300),
        ]
    );
    let (_, poor) = execute_byzantine_strategy(1, &strategy, 3, 299, 0);
    assert_eq!(poor, vec![vote(1, 3, 0, VotePath::Fast, 299)]);
    let (_, off) = execute_byzantine_strategy(1, &strategy, 2, 300, 0);
    assert_eq!(off, vec![vote(1, 2, 0, VotePath::Fast, 300)]);
}

#[test]
fn adaptive_behavior_hands_over_one_level() {
    let adaptive = ByzantineStrategy::AdaptiveBehavior {
        primary_strategy: Box::new(ByzantineStrategy::Equivocation),
        fallback_strategy: Box::new(ByzantineStrategy::TimingAttack {
            delay_votes: true,
            max_delay: 30,
            target_path: None,
        }),
        adaptation_threshold: 2,
    };
    let (delay, votes) = execute_byzantine_strategy(1, &adaptive, 1, 10, 1);
    assert_eq!(delay, 0);
    assert_eq!(votes.len(), 2);
    let (delay, votes) = execute_byzantine_strategy(1, &adaptive, 1, 10, 2);
    assert_eq!(delay, 30);
    assert_eq!(votes, vec![vote(1, 1, 0, VotePath::Slow, 10)]);
    // an adaptive strategy inside an adaptive strategy does not act
    let nested = ByzantineStrategy::AdaptiveBehavior {
        primary_strategy: Box::new(adaptive.clone()),
        fallback_strategy: Box::new(ByzantineStrategy::Equivocation),
        adaptation_threshold: 5,
    };
    let (delay, votes) = execute_byzantine_strategy(1, &nested, 1, 10, 0);
    assert_eq!(delay, 0);
    assert!(votes.is_empty());
}

#[test]
fn timing_attack_delays_by_at_most_a_thousand() {
    let long = ByzantineStrategy::TimingAttack { delay_votes: true, max_delay: 5000, target_path: Some(VotePath::Fast) };
    let (delay, votes) = execute_byzantine_strategy(1, &long, 1, 10, 0);
    assert_eq!(delay, 1000);
    assert_eq!(votes, vec![vote(1, 1, 0, VotePath::Fast, 10)]);
    let off = ByzantineStrategy::TimingAttack { delay_votes: false, max_delay: 5000, target_path: None };
    let (delay, votes) = execute_byzantine_strategy(1, &off, 1, 10, 0);
    assert_eq!(delay, 0);
    assert_eq!(votes, vec![vote(1, 1, 0, VotePath::Slow, 10)]);
}

#[test]
fn stake_based_attack_needs_stake() {
    let strategy = ByzantineStrategy::StakeBasedAttack {
        reserve_stake_for_critical_slots: true,
        activation_threshold: 500,
        min_profit_margin: 50,
    };
    let (_, critical) = execute_byzantine_strategy(1, &strategy, 3, 500, 0);
    assert_eq!(
        critical,
        vec![vote(1, 3, 0, VotePath::Fast, 500), vote(1, 3, 1, VotePath::Fast, 500), vote(1, 3, 2, VotePath::Fast, 500)]
    );
    let (_, regular) = execute_byzantine_strategy(1, &strategy, 4, 500, 0);
    assert_eq!(regular, vec![vote(1, 4, 1, VotePath::Fast, 500)]);
    let (_, poor) = execute_byzantine_strategy(1, &strategy, 3, 499, 0);
    assert!(poor.is_empty());
    let open = ByzantineStrategy::StakeBasedAttack {
        reserve_stake_for_critical_slots: false,
        activation_threshold: 500,
        min_profit_margin: 50,
    };
    let (_, unreserved) = execute_byzantine_strategy(1, &open, 3, 500, 0);
    assert_eq!(unreserved, critical);
}

#[test]
fn split_vote_gives_each_member_its_block() {
    let attack = CoalitionAttackType::SplitVote { target_blocks: vec![4, 5] };
    let members = vec![10, 20, 30];
    assert_eq!(execute_coalition_attack(10, &members, &attack, 1, 9), vec![vote(10, 1, 4, VotePath::Fast, 9)]);
    assert_eq!(execute_coalition_attack(20, &members, &attack, 1, 9), vec![vote(20, 1, 5, VotePath::Fast, 9)]);
    assert_eq!(execute_coalition_attack(30, &members, &attack, 1, 9), vec![vote(30, 1, 4, VotePath::Fast, 9)]);
    // a node outside the coalition does not act
    assert!(execute_coalition_attack(40, &members, &attack, 1, 9).is_empty());
    // without target blocks the vote is for block 0
    let empty = CoalitionAttackType::SplitVote { target_blocks: vec![] };
    assert_eq!(execute_coalition_attack(20, &members, &empty, 1, 9), vec![vote(20, 1, 0, VotePath::Fast, 9)]);
}

#[test]
fn delayed_flood_waits_for_its_slot() {
    let attack = CoalitionAttackType::DelayedFlood { delay_until_slot: 3 };
    let members = vec![1, 2];
    assert!(execute_coalition_attack(1, &members, &attack, 2, 9).is_empty());
    assert_eq!(
        execute_coalition_attack(1, &members, &attack, 3, 9),
        vec![
            vote(1, 3, 0, VotePath::Fast, 9),
            vote(1, 3, 0, VotePath::Slow, 9),
            vote(1, 3, 1, VotePath::Fast, 9),
            vote(1, 3, 1, VotePath::Slow, 9),
        ]
    );
}

#[test]
fn strategic_targeting_equivocates_on_its_slots() {
    let attack = CoalitionAttackType::StrategicTargeting {
        high_priority_slots: vec![2],
        disruption_threshold: frac(0.5),
    };
    let members = vec![1, 2];
    assert_eq!(execute_coalition_attack(2, &members, &attack, 2, 9).len(), 3);
    assert_eq!(execute_coalition_attack(2, &members, &attack, 1, 9), vec![vote(2, 1, 0, VotePath::Fast, 9)]);
}

#[test]
fn certificate_manipulation_by_kind() {
    let members = vec![1, 2];
    let prevent = CoalitionAttackType::CertificateManipulation {
        target_path: VotePath::Slow,
        manipulation_type: CertManipulationType::PreventCertification,
    };
    assert!(execute_coalition_attack(1, &members, &prevent, 4, 9).is_empty());
    let conflict = CoalitionAttackType::CertificateManipulation {
        target_path: VotePath::Slow,
        manipulation_type: CertManipulationType::ConflictingCertificates,
    };
    assert_eq!(execute_coalition_attack(1, &members, &conflict, 4, 9), vec![vote(1, 4, 2, VotePath::Slow, 9)]);
    let delayed = CoalitionAttackType::CertificateManipulation {
        target_path: VotePath::Fast,
        manipulation_type: CertManipulationType::DelayedCertification { delay_slots: 1 },
    };
    assert_eq!(execute_coalition_attack(1, &members, &delayed, 4, 9), vec![vote(1, 2, 0, VotePath::Fast, 9)]);
    assert!(execute_coalition_attack(1, &members, &delayed, 2, 9).is_empty());
}

#[test]
fn byzantine_votes_skip_the_duplicate_check() {
    let mut state = AlpenglowState::new(vec![1, 2, 3], stakes(&[(1, 100), (2, 100), (3, 100)]));
    state.status.insert(1, NodeStatus::Byzantine(ByzantineStrategy::Equivocation));
    let action = AlpenglowAction::ByzantineVote { node: 1, strategy: ByzantineStrategy::Equivocation, slot: 1 };
    let once = step(&state, action.clone()).unwrap();
    let twice = step(&once, action.clone()).unwrap();
    assert_eq!(votes_of(&twice, 1, 1).len(), 4);
    // an honest node does not act as a Byzantine one
    let honest = AlpenglowAction::ByzantineVote { node: 2, strategy: ByzantineStrategy::Equivocation, slot: 1 };
    assert_eq!(step(&state, honest).unwrap(), state);
}

#[test]
fn delayed_certification_votes_for_an_earlier_slot() {
    let mut state = AlpenglowState::new(vec![1, 2, 3], stakes(&[(1, 100), (2, 100), (3, 100)]));
    let strategy = ByzantineStrategy::CoalitionAttack {
        coalition_members: vec![1, 2],
        attack_type: CoalitionAttackType::CertificateManipulation {
            target_path: VotePath::Slow,
            manipulation_type: CertManipulationType::DelayedCertification { delay_slots: 2 },
        },
    };
    state.status.insert(1, NodeStatus::Byzantine(strategy.clone()));
    let next = step(&state, AlpenglowAction::ByzantineVote { node: 1, strategy, slot: 4 }).unwrap();
    assert!(votes_of(&next, 1, 4).is_empty());
    assert_eq!(votes_of(&next, 1, 2), &vec![vote(1, 2, 0, VotePath::Slow, 100)]);
}

#[test]
fn coalition_stake_is_the_stake_of_its_members() {
    let state = AlpenglowState::new(vec![1, 2, 3], stakes(&[(1, 100), (2, 250), (3, 100)]));
    let formed = step(
        &state,
        AlpenglowAction::FormCoalition {
            members: vec![1, 2, 9],
            strategy: CoalitionAttackType::DelayedFlood { delay_until_slot: 2 },
        },
    )
    .unwrap();
    assert_eq!(formed.byzantine_coalitions[0].total_stake, 350);
    assert_eq!(formed.byzantine_coalitions[0].formation_time, 0);
    assert_eq!(formed.coalition_state.get(&0).unwrap().current_phase, AttackPhase::Preparation);
    let attacked = step(&formed, AlpenglowAction::CoordinateAttack { coalition_index: 0, target_slot: 3 }).unwrap();
    let event = &attacked.byzantine_coalitions[0].coordination_history[0];
    assert_eq!(event.slot, 3);
    assert_eq!(event.event_type, EventType::CoordinatedWithhold { target_slot: 3 });
    assert_eq!(event.participants, vec![1, 2, 9]);
    // no state is kept for a coalition that was never formed
    let missing = step(&formed, AlpenglowAction::CoordinateAttack { coalition_index: 1, target_slot: 3 }).unwrap();
    assert_eq!(missing, formed);
}

#[test]
fn only_ticks_and_timing_attacks_move_the_clock() {
    let mut state = AlpenglowState::new(vec![1, 2, 3], stakes(&[(1, 100), (2, 100), (3, 100)]));
    let next = step(&state, AlpenglowAction::TimingManipulation { node: 1, delay_ms: 99, target_slot: 1 }).unwrap();
    assert_eq!(next, state);
    let attack = ByzantineStrategy::TimingAttack { delay_votes: true, max_delay: 7, target_path: None };
    state.status.insert(1, NodeStatus::Byzantine(attack.clone()));
    let next = step(&state, AlpenglowAction::ByzantineVote { node: 1, strategy: attack.clone(), slot: 1 }).unwrap();
    assert_eq!(next.global_time, 7);
    assert_eq!(next.current_slot, 1);
    let mut late = state.clone();
    late.global_time = u64::MAX - 6;
    let same = step(&late, AlpenglowAction::ByzantineVote { node: 1, strategy: attack, slot: 1 }).unwrap();
    assert_eq!(same, late);
}

#[test]
fn byzantine_nodes_are_offered_coalitions_attacks_and_sharper_strategies() {
    let mut state = AlpenglowState::new(vec![1, 2, 3, 4], stakes(&[(1, 100), (2, 100), (3, 100), (4, 100)]));
    state.status.insert(1, NodeStatus::Byzantine(ByzantineStrategy::Equivocation));
    state.status.insert(3, NodeStatus::Byzantine(ByzantineStrategy::WithholdVotes));
    state.status.insert(4, NodeStatus::Byzantine(ByzantineStrategy::RandomVotes));
    let state = step(
        &state,
        AlpenglowAction::FormCoalition {
            members: vec![1, 3],
            strategy: CoalitionAttackType::SplitVote { target_blocks: vec![0, 1, 2] },
        },
    )
    .unwrap();
    let mut actions = Vec::new();
    AlpenglowModel::new().actions(&state, &mut actions);

    let acts: Vec<&AlpenglowAction> =
        actions.iter().filter(|a| matches!(a, AlpenglowAction::ByzantineVote { .. })).collect();
    let mut expected = Vec::new();
    for (node, strategy) in [
        (1, ByzantineStrategy::Equivocation),
        (3, ByzantineStrategy::WithholdVotes),
        (4, ByzantineStrategy::RandomVotes),
    ] {
        for slot in 1..=2 {
            expected.push(AlpenglowAction::ByzantineVote { node, strategy: strategy.clone(), slot });
        }
    }
    assert_eq!(acts, expected.iter().collect::<Vec<_>>());

    let coalitions: Vec<&AlpenglowAction> =
        actions.iter().filter(|a| matches!(a, AlpenglowAction::FormCoalition { .. })).collect();
    let mut expected = Vec::new();
    for members in [vec![1, 3], vec![1, 3, 4]] {
        expected.push(AlpenglowAction::FormCoalition {
            members: members.clone(),
            strategy: CoalitionAttackType::SplitVote { target_blocks: vec![0, 1, 2] },
        });
        expected.push(AlpenglowAction::FormCoalition {
            members,
            strategy: CoalitionAttackType::StrategicTargeting {
                high_priority_slots: vec![1, 3, 5],
                disruption_threshold: Fraction::from_micros(500_000),
            },
        });
    }
    assert_eq!(coalitions, expected.iter().collect::<Vec<_>>());

    let attacks: Vec<&AlpenglowAction> =
        actions.iter().filter(|a| matches!(a, AlpenglowAction::CoordinateAttack { .. })).collect();
    assert_eq!(
        attacks,
        vec![
            &AlpenglowAction::CoordinateAttack { coalition_index: 0, target_slot: 1 },
            &AlpenglowAction::CoordinateAttack { coalition_index: 0, target_slot: 2 },
        ]
    );

    let sharper: Vec<&AlpenglowAction> =
        actions.iter().filter(|a| matches!(a, AlpenglowAction::AdaptStrategy { .. })).collect();
    assert_eq!(
        sharper,
        vec![
            &AlpenglowAction::AdaptStrategy {
                node: 1,
                new_strategy: ByzantineStrategy::SelectiveEquivocation {
                    min_stake_threshold: 100,
                    target_slots: vec![2, 4],
                },
                reason: "Escalating attack".to_string(),
            },
            &AlpenglowAction::AdaptStrategy {
                node: 3,
                new_strategy: ByzantineStrategy::TimingAttack {
                    delay_votes: true,
                    max_delay: 500,
                    target_path: Some(VotePath::Fast),
                },
                reason: "Switching to timing attack".to_string(),
            },
        ]
    );
    // only the honest node votes and times out
    assert_eq!(actions.iter().filter(|a| matches!(a, AlpenglowAction::Vote { node: 2, .. })).count(), 8);
    assert_eq!(actions.iter().filter(|a| matches!(a, AlpenglowAction::Vote { .. })).count(), 8);
    assert_eq!(
        actions.iter().filter(|a| matches!(a, AlpenglowAction::Timeout { .. })).collect::<Vec<_>>(),
        vec![&AlpenglowAction::Timeout { node: 2, slot: 1 }]
    );
}
