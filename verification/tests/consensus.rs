use alpenglow::{
    AlpenglowAction, AlpenglowModel, AlpenglowState, ByzantineStrategy, NodeStatus, ProtocolProperty,
    SortedMap, SortedSet, Vote, VotePath,
};

fn stakes(pairs: &[(u32, u64)]) -> SortedMap<u32, u64> {
    let mut map = SortedMap::new();
    for (node, stake) in pairs {
        map.insert(*node, *stake);
    }
    map
}

fn set_of(nodes: &[u32]) -> SortedSet<u32> {
    let mut set = SortedSet::new();
    for node in nodes {
        set.insert(*node);
    }
    set
}

fn step(state: &AlpenglowState, action: AlpenglowAction) -> Option<AlpenglowState> {
    AlpenglowModel::new().next_state(state, action)
}

fn create_test_model() -> AlpenglowState {
    // Total: 400, Byzantine threshold: 80 (20%), Node 1: 80 (exactly 20%)
    AlpenglowState::new(vec![1, 2, 3, 4], stakes(&[(1, 80), (2, 110), (3, 110), (4, 100)]))
}

fn votes_of(state: &AlpenglowState, node: u32, slot: u32) -> &Vec<Vote> {
    state.votes.get(&node).unwrap().get(&slot).unwrap()
}

#[test]
fn test_basic_consensus() {
    let model = create_test_model();

    let initial_states = model.init_states();
    assert_eq!(initial_states.len(), 1);

    let _state = &initial_states[0];
    let mut actions = Vec::new();
    model.actions(&model, &mut actions);

    assert!(actions.len() > 0);
    println!("Basic consensus: {} initial actions available", actions.len());
}

#[test]
fn test_stake_weighted_safety() {
    let model = create_test_model();

    let properties = model.properties();
    assert!(properties.len() > 0, "Model should have properties defined");

    let _state = model.clone();
    for prop in properties.iter() {
        println!("Testing property: {}", prop.name());
    }
}

#[test]
fn test_byzantine_resilience() {
    let mut model = create_test_model();

    model.status.insert(1, NodeStatus::Byzantine(ByzantineStrategy::Equivocation));

    assert!(model.byzantine_stake() <= model.byzantine_threshold_stake());

    let mut actions = Vec::new();
    model.actions(&model, &mut actions);

    let byzantine_actions: Vec<_> = actions
        .iter()
        .filter(|action| matches!(action, AlpenglowAction::ByzantineVote { .. }))
        .collect();

    assert!(byzantine_actions.len() > 0, "Byzantine nodes should have Byzantine actions available");
    println!("Byzantine resilience: {} Byzantine actions available", byzantine_actions.len());
}

#[test]
fn test_fast_path_quorum() {
    let model = create_test_model();

    assert_eq!(model.fast_quorum_stake(), 320);
    assert_eq!(model.slow_quorum_stake(), 240);
    assert_eq!(model.byzantine_threshold_stake(), 80);
}

#[test]
fn test_consensus_simulation() {
    let model = create_test_model();
    let state = model.clone();

    let vote_action = AlpenglowAction::Vote { node: 1, slot: 1, block: 1, path: VotePath::Fast };

    if let Some(new_state) = model.next_state(&state, vote_action) {
        assert!(!votes_of(&new_state, 1, 1).is_empty());
    }
}

#[test]
fn test_timeout_mechanism() {
    let model = create_test_model();
    let state = model.clone();

    let timeout_action = AlpenglowAction::Timeout { node: 1, slot: 1 };

    if let Some(new_state) = step(&state, timeout_action) {
        assert!(new_state.timeouts.get(&1).unwrap().get(&1).unwrap().count > 0);
    }
}

#[test]
fn test_network_partition() {
    let model = create_test_model();
    let state = model.clone();

    let partition_action =
        AlpenglowAction::NetworkPartition { nodes_a: set_of(&[1, 2]), nodes_b: set_of(&[3, 4]) };

    if let Some(new_state) = step(&state, partition_action) {
        assert!(new_state.is_network_partitioned());
        assert!(!new_state.can_node_communicate(1, 3));
        assert!(new_state.can_node_communicate(1, 2));
    }
}

#[test]
fn test_certificate_generation() {
    let model = create_test_model();
    let mut state = model.clone();

    for (node, stake) in [(1, 80), (2, 110), (3, 110), (4, 100)].iter() {
        let vote = Vote { node: *node, slot: 1, block: 1, path: VotePath::Fast, stake: *stake };
        state.votes.get_mut(node).unwrap().get_mut(&1).unwrap().push(vote);
    }

    let certify_action = AlpenglowAction::Certify { slot: 1, path: VotePath::Fast };

    if let Some(new_state) = step(&state, certify_action) {
        if let Some(cert) = new_state.certificates.get(&1) {
            assert_eq!(cert.total_stake, 400);
            assert_eq!(cert.block, 1);
        }
    }
}

#[test]
fn test_equivocation_detection() {
    let model = create_test_model();
    let mut test_model = model.clone();

    test_model.status.insert(1, NodeStatus::Byzantine(ByzantineStrategy::Equivocation));

    let state = test_model.clone();
    let byzantine_action =
        AlpenglowAction::ByzantineVote { node: 1, strategy: ByzantineStrategy::Equivocation, slot: 1 };

    if let Some(new_state) = step(&state, byzantine_action) {
        let votes = votes_of(&new_state, 1, 1);
        let unique_blocks: std::collections::HashSet<_> = votes.iter().map(|v| v.block).collect();
        assert!(unique_blocks.len() > 1, "Byzantine node should equivocate");
    }
}

#[test]
fn test_skip_certificate_generation() {
    let model = create_test_model();
    let mut state = model.clone();

    let vote1 = Vote { node: 1, slot: 1, block: 1, path: VotePath::Fast, stake: 80 };
    let vote2 = Vote { node: 2, slot: 1, block: 1, path: VotePath::Fast, stake: 110 };
    let vote3 = Vote { node: 3, slot: 1, block: 1, path: VotePath::Fast, stake: 110 };
    state.votes.get_mut(&1).unwrap().get_mut(&1).unwrap().push(vote1);
    state.votes.get_mut(&2).unwrap().get_mut(&1).unwrap().push(vote2);
    state.votes.get_mut(&3).unwrap().get_mut(&1).unwrap().push(vote3);

    for node in 1..=3 {
        state.timeouts.get_mut(&node).unwrap().get_mut(&1).unwrap().count = 5;
    }

    let skip_action = AlpenglowAction::SkipCert { slot: 1 };

    if let Some(new_state) = step(&state, skip_action) {
        assert!(new_state.skip_certs.contains_key(&1));
    }
}

#[test]
fn test_bounded_model_checking() {
    let model = create_test_model();

    let state = model.clone();
    let vote_action = AlpenglowAction::Vote { node: 1, slot: 1, block: 0, path: VotePath::Fast };

    if let Some(new_state) = step(&state, vote_action) {
        println!("Bounded model checking: State transition successful");
        assert!(votes_of(&new_state, 1, 1).len() > votes_of(&state, 1, 1).len());
    }
}

#[test]
fn test_liveness_properties() {
    let model = create_test_model();

    let properties = model.properties();
    assert!(properties.len() > 0, "Model should define properties");
}

// The scenarios of the protocol, end to end.

#[test]
fn fast_path_happy_path() {
    let mut state = AlpenglowState::new(vec![1, 2, 3, 4], stakes(&[(1, 100), (2, 100), (3, 100), (4, 100)]));
    for node in 1..=4 {
        state = step(&state, AlpenglowAction::Vote { node, slot: 1, block: 1, path: VotePath::Fast }).unwrap();
    }
    state = step(&state, AlpenglowAction::Certify { slot: 1, path: VotePath::Fast }).unwrap();
    let cert = state.certificates.get(&1).unwrap();
    assert_eq!(cert.total_stake, 400);
    assert_eq!(cert.block, 1);
    assert_eq!(cert.path, VotePath::Fast);
    assert_eq!(cert.votes.len(), 4);
    assert_eq!(state.ledger.len(), 1);
    assert_eq!(state.ledger[0].slot, 1);
    assert_eq!(state.ledger[0].block_id, 1);
    assert_eq!(state.ledger[0].total_stake, 400);
    assert_eq!(state.ledger[0].finalization_time, 0);
}

#[test]
fn minority_byzantine_safety() {
    let mut state = create_test_model();
    state.status.insert(1, NodeStatus::Byzantine(ByzantineStrategy::Equivocation));
    assert_eq!(state.byzantine_stake(), 80);
    assert_eq!(state.honest_stake(), 320);
    let state = step(
        &state,
        AlpenglowAction::ByzantineVote { node: 1, strategy: ByzantineStrategy::Equivocation, slot: 1 },
    )
    .unwrap();
    let votes = votes_of(&state, 1, 1);
    assert_eq!(votes.len(), 2);
    assert_eq!(votes[0].block, 0);
    assert_eq!(votes[1].block, 1);
    // node 1 alone cannot certify anything
    let fast = step(&state, AlpenglowAction::Certify { slot: 1, path: VotePath::Fast }).unwrap();
    assert!(!fast.certificates.contains_key(&1));
    let slow = step(&state, AlpenglowAction::Certify { slot: 1, path: VotePath::Slow }).unwrap();
    assert!(!slow.certificates.contains_key(&1));
    assert!(state.holds(ProtocolProperty::ByzantineResilience));
    assert!(slow.holds(ProtocolProperty::ByzantineResilience));
}

#[test]
fn timeout_driven_skip() {
    let mut state = AlpenglowState::new(vec![1, 2, 3, 4], stakes(&[(1, 100), (2, 100), (3, 100), (4, 100)]));
    for node in 1..=3 {
        state.timeouts.get_mut(&node).unwrap().get_mut(&1).unwrap().count = 5;
        state.add_vote_to_state(Vote { node, slot: 1, block: 1, path: VotePath::Fast, stake: 100 });
    }
    let state = step(&state, AlpenglowAction::SkipCert { slot: 1 }).unwrap();
    let skip = state.skip_certs.get(&1).unwrap();
    assert_eq!(skip.slot, 1);
    assert_eq!(skip.total_stake, 300);
    assert!(skip.total_stake >= 240);
    assert_eq!(skip.timeout_votes.len(), 3);
}

#[test]
fn skip_needs_timeouts_and_stake() {
    let fresh = AlpenglowState::new(vec![1, 2, 3, 4], stakes(&[(1, 100), (2, 100), (3, 100), (4, 100)]));
    // two of four nodes are exactly the 60% of four, rounded down
    let mut two = fresh.clone();
    for node in 1..=2 {
        two.timeouts.get_mut(&node).unwrap().get_mut(&1).unwrap().count = 3;
    }
    for node in 1..=3 {
        two.add_vote_to_state(Vote { node, slot: 1, block: 1, path: VotePath::Fast, stake: 100 });
    }
    assert_eq!(two.count_timed_out(1), 2);
    assert!(step(&two, AlpenglowAction::SkipCert { slot: 1 }).unwrap().skip_certs.contains_key(&1));
    // one node is not enough
    let mut one = fresh.clone();
    one.timeouts.get_mut(&1).unwrap().get_mut(&1).unwrap().count = 3;
    for node in 1..=3 {
        one.add_vote_to_state(Vote { node, slot: 1, block: 1, path: VotePath::Fast, stake: 100 });
    }
    assert!(!step(&one, AlpenglowAction::SkipCert { slot: 1 }).unwrap().skip_certs.contains_key(&1));
    // enough timeouts, too little stake
    let mut poor = fresh.clone();
    for node in 1..=3 {
        poor.timeouts.get_mut(&node).unwrap().get_mut(&1).unwrap().count = 3;
    }
    poor.add_vote_to_state(Vote { node: 1, slot: 1, block: 1, path: VotePath::Fast, stake: 239 });
    assert!(!step(&poor, AlpenglowAction::SkipCert { slot: 1 }).unwrap().skip_certs.contains_key(&1));
}

#[test]
fn honest_vote_is_idempotent() {
    let state = create_test_model();
    let vote = AlpenglowAction::Vote { node: 2, slot: 1, block: 1, path: VotePath::Fast };
    let once = step(&state, vote.clone()).unwrap();
    let twice = step(&once, vote).unwrap();
    assert_eq!(once, twice);
    assert_eq!(votes_of(&once, 2, 1).len(), 1);
    assert_eq!(votes_of(&once, 2, 1)[0], Vote { node: 2, slot: 1, block: 1, path: VotePath::Fast, stake: 110 });
}

#[test]
fn vote_of_a_node_that_is_not_honest_is_ignored() {
    let mut state = create_test_model();
    state.status.insert(1, NodeStatus::Byzantine(ByzantineStrategy::WithholdVotes));
    state.status.insert(2, NodeStatus::Crashed { since: 0 });
    for node in [1, 2, 9] {
        let next = step(&state, AlpenglowAction::Vote { node, slot: 1, block: 1, path: VotePath::Fast }).unwrap();
        assert_eq!(next, state);
    }
    // no list is kept for a slot beyond the horizon
    let next = step(&state, AlpenglowAction::Vote { node: 3, slot: 6, block: 1, path: VotePath::Fast }).unwrap();
    assert_eq!(next, state);
}

#[test]
fn certify_picks_the_smallest_block_that_qualifies() {
    let mut state = AlpenglowState::new(vec![1, 2, 3, 4], stakes(&[(1, 100), (2, 100), (3, 100), (4, 100)]));
    // on the slow path 240 is needed; blocks 7 and 3 both get 300
    for node in 1..=3 {
        state.add_vote_to_state(Vote { node, slot: 2, block: 7, path: VotePath::Slow, stake: 100 });
    }
    for node in 2..=4 {
        state.add_vote_to_state(Vote { node, slot: 2, block: 3, path: VotePath::Slow, stake: 100 });
    }
    state.add_vote_to_state(Vote { node: 1, slot: 2, block: 1, path: VotePath::Slow, stake: 100 });
    let state = step(&state, AlpenglowAction::Certify { slot: 2, path: VotePath::Slow }).unwrap();
    let cert = state.certificates.get(&2).unwrap();
    assert_eq!(cert.block, 3);
    assert_eq!(cert.total_stake, 300);
    assert_eq!(cert.path, VotePath::Slow);
    assert_eq!(cert.votes.len(), 3);
    // the fast path has no votes at all
    let fast = step(&state, AlpenglowAction::Certify { slot: 2, path: VotePath::Fast }).unwrap();
    assert_eq!(fast, state);
}

#[test]
fn certify_appends_to_the_ledger_once() {
    let mut state = AlpenglowState::new(vec![1, 2, 3, 4], stakes(&[(1, 100), (2, 100), (3, 100), (4, 100)]));
    for node in 1..=4 {
        state.add_vote_to_state(Vote { node, slot: 1, block: 5, path: VotePath::Fast, stake: 100 });
    }
    let state = step(&state, AlpenglowAction::AdvanceTime { delta: 7 }).unwrap();
    let first = step(&state, AlpenglowAction::Certify { slot: 1, path: VotePath::Fast }).unwrap();
    assert_eq!(first.ledger.len(), 1);
    assert_eq!(first.ledger[0].finalization_time, 7);
    let second = step(&first, AlpenglowAction::Certify { slot: 1, path: VotePath::Fast }).unwrap();
    assert_eq!(second.ledger.len(), 1);
    assert_eq!(second, first);
}

#[test]
fn quorums_round_down() {
    let state = AlpenglowState::new(vec![1, 2], stakes(&[(1, 3), (2, 4)]));
    assert_eq!(state.total_stake(), 7);
    assert_eq!(state.fast_quorum_stake(), 5);
    assert_eq!(state.slow_quorum_stake(), 4);
    assert_eq!(state.byzantine_threshold_stake(), 1);
    assert_eq!(state.total_stake_wide(), 7);
    let huge = AlpenglowState::new(vec![1, 2], stakes(&[(1, u64::MAX), (2, u64::MAX)]));
    assert_eq!(huge.total_stake_wide(), 2 * (u64::MAX as u128));
    assert_eq!(huge.quorum_wide(80), 2 * (u64::MAX as u128) * 80 / 100);
}

#[test]
fn advance_time_rolls_the_slot_and_the_leader() {
    let state = AlpenglowState::new(vec![1, 2, 3], stakes(&[(1, 100), (2, 100), (3, 100)]));
    let state = step(&state, AlpenglowAction::AdvanceTime { delta: 9 }).unwrap();
    assert_eq!(state.global_time, 9);
    assert_eq!(state.current_slot, 1);
    assert_eq!(state.leader_rotation.leader_history.len(), 1);
    let state = step(&state, AlpenglowAction::AdvanceTime { delta: 1 }).unwrap();
    assert_eq!(state.global_time, 10);
    assert_eq!(state.current_slot, 2);
    assert_eq!(state.leader_rotation.current_slot, 2);
    assert_eq!(state.leader_rotation.current_leader, 2);
    assert_eq!(state.leader_rotation.leader_history, vec![(1, 1), (2, 2)]);
    // the horizon stops the slot, and the clock stops at its range
    let mut late = state.clone();
    late.current_slot = 5;
    let late = step(&late, AlpenglowAction::AdvanceTime { delta: 10 }).unwrap();
    assert_eq!(late.current_slot, 5);
    assert_eq!(late.global_time, 20);
    let full = step(&late, AlpenglowAction::AdvanceTime { delta: u64::MAX }).unwrap();
    assert_eq!(full, late);
}

#[test]
fn timeout_is_for_honest_nodes() {
    let mut state = create_test_model();
    state.status.insert(1, NodeStatus::Byzantine(ByzantineStrategy::Equivocation));
    let state = step(&state, AlpenglowAction::AdvanceTime { delta: 3 }).unwrap();
    let same = step(&state, AlpenglowAction::Timeout { node: 1, slot: 1 }).unwrap();
    assert_eq!(same, state);
    let next = step(&state, AlpenglowAction::Timeout { node: 2, slot: 1 }).unwrap();
    let info = next.timeout_info(2, 1).unwrap();
    assert_eq!(info.count, 1);
    assert_eq!(info.last_timeout, 3);
    assert_eq!(info.threshold, 3);
    let mut top = state.clone();
    top.timeouts.get_mut(&2).unwrap().get_mut(&1).unwrap().count = u32::MAX;
    assert_eq!(step(&top, AlpenglowAction::Timeout { node: 2, slot: 1 }).unwrap(), top);
}

#[test]
fn replay_is_deterministic() {
    let start = create_test_model();
    let script = vec![
        AlpenglowAction::Vote { node: 1, slot: 1, block: 1, path: VotePath::Fast },
        AlpenglowAction::Vote { node: 2, slot: 1, block: 1, path: VotePath::Fast },
        AlpenglowAction::AdvanceTime { delta: 10 },
        AlpenglowAction::Vote { node: 3, slot: 1, block: 1, path: VotePath::Fast },
        AlpenglowAction::Vote { node: 4, slot: 1, block: 1, path: VotePath::Fast },
        AlpenglowAction::Certify { slot: 1, path: VotePath::Fast },
        AlpenglowAction::Timeout { node: 2, slot: 2 },
        AlpenglowAction::RotateLeader { new_leader: 1, slot: 3 },
    ];
    let mut first = start.clone();
    let mut second = start.clone();
    for action in &script {
        first = step(&first, action.clone()).unwrap();
    }
    for action in &script {
        second = step(&second, action.clone()).unwrap();
    }
    assert_eq!(first, second);
    assert!(first.certificates.contains_key(&1));
}

#[test]
fn the_model_starts_from_three_nodes() {
    let states = AlpenglowModel::new().init_states();
    assert_eq!(states.len(), 1);
    assert_eq!(states[0], AlpenglowState::new(vec![0, 1, 2], stakes(&[(0, 1000), (1, 1500), (2, 2000)])));
    assert_eq!(states[0].current_slot, 1);
    assert_eq!(states[0].economic_state.rewards_pool, 3000);
}

#[test]
fn the_first_offer_is_a_tick() {
    let state = create_test_model();
    let mut actions = vec![AlpenglowAction::HealPartition];
    AlpenglowModel::new().actions(&state, &mut actions);
    assert_eq!(actions[0], AlpenglowAction::HealPartition);
    assert_eq!(actions[1], AlpenglowAction::AdvanceTime { delta: 1 });
    // four honest nodes, two slots, two blocks, two paths
    let votes = actions.iter().filter(|a| matches!(a, AlpenglowAction::Vote { .. })).count();
    assert_eq!(votes, 4 * 2 * 2 * 2);
    let certs = actions.iter().filter(|a| matches!(a, AlpenglowAction::Certify { .. })).count();
    assert_eq!(certs, 2);
    assert!(actions.iter().any(|a| matches!(a, AlpenglowAction::NetworkPartition { .. })));
    assert_eq!(actions.iter().filter(|a| matches!(a, AlpenglowAction::HealPartition)).count(), 1);
}

// The properties, evaluated.

#[test]
fn safety_looks_at_the_slot_a_certificate_names() {
    let mut state = AlpenglowState::new(vec![1, 2, 3, 4], stakes(&[(1, 100), (2, 100), (3, 100), (4, 100)]));
    assert!(state.holds(ProtocolProperty::StakeWeightedSafety));
    for node in 1..=4 {
        state.add_vote_to_state(Vote { node, slot: 1, block: 1, path: VotePath::Fast, stake: 100 });
        state.add_vote_to_state(Vote { node, slot: 2, block: 2, path: VotePath::Fast, stake: 100 });
    }
    let state = step(&state, AlpenglowAction::Certify { slot: 1, path: VotePath::Fast }).unwrap();
    let state = step(&state, AlpenglowAction::Certify { slot: 2, path: VotePath::Fast }).unwrap();
    assert!(state.holds(ProtocolProperty::StakeWeightedSafety));
    // a certificate for slot 1 and another block, filed under slot 3
    let mut broken = state.clone();
    let mut stray = state.certificates.get(&1).unwrap().clone();
    stray.block = 9;
    broken.certificates.insert(3, stray);
    assert!(!broken.holds(ProtocolProperty::StakeWeightedSafety));
}

#[test]
fn resilience_looks_at_the_blocks_of_each_certificate() {
    let mut state = create_test_model();
    for node in 1..=4 {
        state.add_vote_to_state(Vote { node, slot: 1, block: 1, path: VotePath::Fast, stake: 100 });
    }
    let state = step(&state, AlpenglowAction::Certify { slot: 1, path: VotePath::Fast }).unwrap();
    assert!(state.certificates_single_block());
    assert!(state.holds(ProtocolProperty::ByzantineResilience));
    let mut mixed = state.clone();
    let mut cert = state.certificates.get(&1).unwrap().clone();
    cert.votes.insert(Vote { node: 1, slot: 1, block: 2, path: VotePath::Fast, stake: 80 });
    mixed.certificates.insert(1, cert);
    assert!(!mixed.certificates_single_block());
    assert!(!mixed.holds(ProtocolProperty::ByzantineResilience));
    // beyond the threshold nothing is asked
    mixed.status.insert(2, NodeStatus::Byzantine(ByzantineStrategy::Equivocation));
    assert!(mixed.holds(ProtocolProperty::ByzantineResilience));
}

#[test]
fn fast_path_efficiency_breaks_on_a_slow_certificate() {
    let mut state = AlpenglowState::new(vec![1, 2, 3, 4], stakes(&[(1, 100), (2, 100), (3, 100), (4, 100)]));
    assert!(state.holds(ProtocolProperty::FastPathEfficiency));
    for node in 1..=3 {
        state.add_vote_to_state(Vote { node, slot: 1, block: 1, path: VotePath::Slow, stake: 100 });
        state.add_vote_to_state(Vote { node, slot: 2, block: 1, path: VotePath::Fast, stake: 100 });
    }
    state.add_vote_to_state(Vote { node: 4, slot: 2, block: 1, path: VotePath::Fast, stake: 100 });
    let slow = step(&state, AlpenglowAction::Certify { slot: 1, path: VotePath::Slow }).unwrap();
    assert!(!slow.fast_certificate_or_none());
    assert!(!slow.holds(ProtocolProperty::FastPathEfficiency));
    let both = step(&slow, AlpenglowAction::Certify { slot: 2, path: VotePath::Fast }).unwrap();
    assert!(both.holds(ProtocolProperty::FastPathEfficiency));
    // with less than the fast quorum honest nothing is asked
    let mut weak = slow.clone();
    weak.status.insert(1, NodeStatus::Crashed { since: 0 });
    assert!(weak.holds(ProtocolProperty::FastPathEfficiency));
}

#[test]
fn progress_wants_every_past_slot_settled() {
    let mut state = AlpenglowState::new(vec![1, 2, 3, 4], stakes(&[(1, 100), (2, 100), (3, 100), (4, 100)]));
    assert!(state.holds(ProtocolProperty::Progress));
    for node in 1..=4 {
        state.add_vote_to_state(Vote { node, slot: 1, block: 1, path: VotePath::Fast, stake: 100 });
        state.timeouts.get_mut(&node).unwrap().get_mut(&2).unwrap().count = 3;
        state.add_vote_to_state(Vote { node, slot: 2, block: 1, path: VotePath::Fast, stake: 100 });
    }
    let moved = step(&state, AlpenglowAction::AdvanceTime { delta: 10 }).unwrap();
    assert_eq!(moved.current_slot, 2);
    assert!(!moved.holds(ProtocolProperty::Progress));
    let certified = step(&state, AlpenglowAction::Certify { slot: 1, path: VotePath::Fast }).unwrap();
    let moved = step(&certified, AlpenglowAction::AdvanceTime { delta: 10 }).unwrap();
    assert!(moved.holds(ProtocolProperty::Progress));
    let skipped = step(&moved, AlpenglowAction::SkipCert { slot: 2 }).unwrap();
    let moved = step(&skipped, AlpenglowAction::AdvanceTime { delta: 10 }).unwrap();
    assert_eq!(moved.current_slot, 3);
    assert!(moved.holds(ProtocolProperty::Progress));
}

#[test]
fn honest_nodes_equivocate_by_voting_for_two_blocks() {
    let state = create_test_model();
    assert!(state.holds(ProtocolProperty::HonestNoEquivocation));
    let one = step(&state, AlpenglowAction::Vote { node: 2, slot: 1, block: 0, path: VotePath::Fast }).unwrap();
    let other_path = step(&one, AlpenglowAction::Vote { node: 2, slot: 1, block: 1, path: VotePath::Slow }).unwrap();
    assert!(other_path.holds(ProtocolProperty::HonestNoEquivocation));
    let two = step(&one, AlpenglowAction::Vote { node: 2, slot: 1, block: 1, path: VotePath::Fast }).unwrap();
    assert_eq!(votes_of(&two, 2, 1).len(), 2);
    assert!(!two.holds(ProtocolProperty::HonestNoEquivocation));
    // what a Byzantine node does is not held against the honest ones
    let mut byzantine = two.clone();
    byzantine.status.insert(2, NodeStatus::Byzantine(ByzantineStrategy::Equivocation));
    assert!(byzantine.holds(ProtocolProperty::HonestNoEquivocation));
}

#[test]
fn the_exploration_key_tells_states_apart() {
    let mut state = create_test_model();
    state.status.insert(1, NodeStatus::Byzantine(ByzantineStrategy::RandomVotes));
    state.status.insert(3, NodeStatus::Crashed { since: 8 });
    let key = state.exploration_key();
    assert_eq!(key.current_slot, 1);
    assert_eq!(key.node_tags, vec![(1, 12, 0), (2, 0, 0), (3, 2, 8), (4, 0, 0)]);
    assert_eq!(key.votes_per_slot, vec![0]);
    assert!(!key.partitioned);
    let voted = step(&state, AlpenglowAction::Vote { node: 2, slot: 1, block: 0, path: VotePath::Fast }).unwrap();
    assert_eq!(voted.exploration_key().votes_per_slot, vec![1]);
    assert_ne!(voted.exploration_key(), key);
    assert_eq!(state.clone().exploration_key(), key);
}
