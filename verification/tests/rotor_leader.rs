use alpenglow::{
    AlpenglowAction, AlpenglowModel, AlpenglowState, Block, Fraction, ProtocolProperty, RelayNode,
    SortedMap,
};

fn stakes(pairs: &[(u32, u64)]) -> SortedMap<u32, u64> {
    let mut map = SortedMap::new();
    for (node, stake) in pairs {
        map.insert(*node, *stake);
    }
    map
}

fn frac(x: f64) -> Fraction {
    Fraction::from_micros((x * 1_000_000.0).round() as u64)
}

fn step(state: &AlpenglowState, action: AlpenglowAction) -> Option<AlpenglowState> {
    AlpenglowModel::new().next_state(state, action)
}

#[test]
fn test_rotor_erasure_coding_creation() {
    let nodes = vec![0, 1, 2, 3];
    let stake_dist = stakes(&[(0, 1000), (1, 1500), (2, 2000), (3, 500)]);

    let state = AlpenglowState::new(nodes, stake_dist);

    let block = Block { id: 1, parent: 0 };
    let erasure_block = state.create_erasure_coded_block(block, frac(1.5));

    assert_eq!(erasure_block.block.id, 1);
    assert_eq!(erasure_block.redundancy_level, frac(1.5));
    assert_eq!(erasure_block.required_chunks, 10);
    assert!(erasure_block.chunks.len() >= 10);

    for chunk in &erasure_block.chunks {
        assert_eq!(chunk.block_id, 1);
        assert!(!chunk.data.is_empty());
    }
}

#[test]
fn test_rotor_stake_weighted_relay_selection() {
    let nodes = vec![0, 1, 2, 3];
    let stake_dist = stakes(&[(0, 1000), (1, 1500), (2, 2000), (3, 500)]);

    let state = AlpenglowState::new(nodes, stake_dist);

    let block = Block { id: 1, parent: 0 };
    let erasure_block = state.create_erasure_coded_block(block, frac(1.0));

    let relay_nodes = state.select_relay_nodes(1, &erasure_block);

    assert!(!relay_nodes.is_empty());

    let node_2_chunks =
        relay_nodes.iter().find(|r| r.node_id == 2).map(|r| r.assigned_chunks.len()).unwrap_or(0);

    let node_3_chunks =
        relay_nodes.iter().find(|r| r.node_id == 3).map(|r| r.assigned_chunks.len()).unwrap_or(0);

    assert!(node_2_chunks >= node_3_chunks);

    for relay in &relay_nodes {
        assert!(relay.stake_weight > 0);
        assert!(relay.reliability_score.exceeds(&frac(0.0)));
        assert!(!relay.assigned_chunks.is_empty());
    }
}

#[test]
fn test_rotor_chunk_reconstruction() {
    let nodes = vec![0, 1, 2];
    let stake_dist = stakes(&[(0, 1000), (1, 1000), (2, 1000)]);

    let mut state = AlpenglowState::new(nodes, stake_dist);

    let block = Block { id: 1, parent: 0 };
    let erasure_block = state.create_erasure_coded_block(block, frac(0.5));

    assert!(!state.can_reconstruct_block(1));

    state.erasure_coded_blocks.insert(1, erasure_block.clone());

    for i in 0..erasure_block.required_chunks {
        state.mark_available((1, i as u32), i as u32 % 3);
    }

    assert!(state.can_reconstruct_block(1));
}

#[test]
fn test_leader_rotation_deterministic() {
    let nodes = vec![0, 1, 2, 3];
    let stake_dist = stakes(&[(0, 1000), (1, 1500), (2, 2000), (3, 500)]);

    let mut state = AlpenglowState::new(nodes, stake_dist);

    let leader_1 = state.get_leader_for_slot(1);
    let leader_2 = state.get_leader_for_slot(2);
    let _leader_3 = state.get_leader_for_slot(3);

    assert_eq!(leader_1, state.get_leader_for_slot(1));
    assert_eq!(leader_2, state.get_leader_for_slot(2));

    state.rotate_leader(2);
    assert_eq!(state.leader_rotation.current_slot, 2);
    assert_eq!(state.leader_rotation.leader_history.len(), 2);

    let schedule = state.generate_leader_schedule_for_window(1);
    assert_eq!(schedule.len(), 4);
    assert!(schedule.contains(&0));
    assert!(schedule.contains(&1));
    assert!(schedule.contains(&2));
    assert!(schedule.contains(&3));
}

#[test]
fn test_windowing_system() {
    let nodes = vec![0, 1, 2];
    let stake_dist = stakes(&[(0, 1000), (1, 1000), (2, 1000)]);

    let mut state = AlpenglowState::new(nodes, stake_dist);

    assert_eq!(state.current_window.window_start, 1);
    assert_eq!(state.current_window.window_size, 10);
    assert_eq!(state.current_window.finality_depth, 2);

    state.update_window(11, 15, 3);

    assert_eq!(state.current_window.window_start, 11);
    assert_eq!(state.current_window.window_size, 15);
    assert_eq!(state.current_window.finality_depth, 3);

    assert_eq!(state.current_window.leader_schedule.len(), 3);
}

#[test]
fn test_bounded_finalization_time() {
    let nodes = vec![0, 1, 2];
    let stake_dist = stakes(&[(0, 1000), (1, 1000), (2, 1000)]);

    let mut state = AlpenglowState::new(nodes, stake_dist);

    let slot = 1u32;
    let slot_start_time = slot as u64 * 1000;
    let valid_finalization_time = slot_start_time + 400;

    state.finalization_times.insert(slot, valid_finalization_time);
    assert!(state.check_finalization_time_bounds(slot));

    let invalid_finalization_time = slot_start_time + 1200;
    state.finalization_times.insert(slot, invalid_finalization_time);
    assert!(!state.check_finalization_time_bounds(slot));
}

#[test]
fn test_rotor_erasure_actions() {
    let nodes = vec![0, 1, 2];
    let stake_dist = stakes(&[(0, 1000), (1, 1000), (2, 1000)]);

    let state = AlpenglowState::new(nodes, stake_dist);
    let model = AlpenglowModel::new();

    let block = Block { id: 1, parent: 0 };
    let erasure_block = state.create_erasure_coded_block(block, frac(1.0));

    let action = AlpenglowAction::PropagateErasureBlock { node: 0, erasure_block: erasure_block.clone() };

    let new_state = model.next_state(&state, action);
    assert!(new_state.is_some());

    let new_state = new_state.unwrap();
    assert!(new_state.erasure_coded_blocks.contains_key(&1));
    assert!(!new_state.relay_assignments.is_empty());

    let chunk = erasure_block.chunks[0].clone();
    let chunk_action = AlpenglowAction::PropagateChunk { node: 0, chunk, target_nodes: vec![1, 2] };

    let chunk_result = model.next_state(&new_state, chunk_action);
    assert!(chunk_result.is_some());

    let chunk_state = chunk_result.unwrap();
    assert!(chunk_state.chunk_availability.contains_key(&(1, 0)));
}

#[test]
fn test_leader_rotation_actions() {
    let nodes = vec![0, 1, 2];
    let stake_dist = stakes(&[(0, 1000), (1, 1000), (2, 1000)]);

    let state = AlpenglowState::new(nodes, stake_dist);
    let model = AlpenglowModel::new();

    let rotation_action = AlpenglowAction::RotateLeader { new_leader: 1, slot: 2 };

    let new_state = model.next_state(&state, rotation_action);
    assert!(new_state.is_some());

    let new_state = new_state.unwrap();
    assert_eq!(new_state.leader_rotation.current_slot, 2);
    assert_eq!(new_state.leader_rotation.leader_history.len(), 2);

    let window_action = AlpenglowAction::UpdateWindow { slot: 11, window_size: 20, finality_depth: 5 };

    let window_result = model.next_state(&new_state, window_action);
    assert!(window_result.is_some());

    let window_state = window_result.unwrap();
    assert_eq!(window_state.current_window.window_start, 11);
    assert_eq!(window_state.current_window.window_size, 20);
}

#[test]
fn test_complete_alpenglow_protocol_properties() {
    let nodes = vec![0, 1, 2, 3, 4];
    let stake_dist = stakes(&[(0, 2000), (1, 1500), (2, 1500), (3, 1000), (4, 1000)]);

    let mut state = AlpenglowState::new(nodes, stake_dist);

    let block = Block { id: 1, parent: 0 };
    let erasure_block = state.create_erasure_coded_block(block, frac(1.0));
    state.erasure_coded_blocks.insert(1, erasure_block.clone());

    for i in 0..erasure_block.required_chunks {
        state.mark_available((1, i as u32), i as u32 % 5);
    }

    for slot in 1..=15 {
        state.rotate_leader(slot);
    }

    state.finalization_times.insert(1, 1400);
    state.finalization_times.insert(2, 2450);

    let properties = state.properties();

    assert!(properties.len() >= 8);

    let property_names: Vec<&str> = properties.iter().map(|p| p.name()).collect();
    assert!(property_names.contains(&"bounded_finalization_time"));
    assert!(property_names.contains(&"erasure_block_availability"));
    assert!(property_names.contains(&"leader_rotation_fairness"));

    for property in &properties {
        let result = state.holds(*property);
        println!("Property '{}': {}", property.name(), result);
    }
}

// Rotor and the leaders, figure by figure.

#[test]
fn erasure_coding_by_formula() {
    let state = AlpenglowState::new(vec![0], stakes(&[(0, 1)]));
    let coded = state.create_erasure_coded_block(Block { id: 7, parent: 6 }, frac(1.0));
    assert_eq!(coded.chunks.len(), 20);
    assert_eq!(coded.required_chunks, 10);
    assert_eq!(coded.block, Block { id: 7, parent: 6 });
    let chunk = &coded.chunks[3];
    assert_eq!(chunk.chunk_id, 3);
    assert_eq!(chunk.block_id, 7);
    assert_eq!(chunk.data, vec![3u8; 64]);
    assert_eq!(chunk.checksum, 3 * 12345 + 7);
    // 10 + floor(10 * 0.59)
    assert_eq!(state.create_erasure_coded_block(Block { id: 7, parent: 6 }, frac(0.59)).chunks.len(), 15);
    assert_eq!(state.create_erasure_coded_block(Block { id: 7, parent: 6 }, frac(0.0)).chunks.len(), 10);
    // the data holds the low byte of the chunk id
    let long = state.create_erasure_coded_block(Block { id: 7, parent: 6 }, frac(25.0));
    assert_eq!(long.chunks.len(), 260);
    assert_eq!(long.chunks[257].data, vec![1u8; 64]);
}

#[test]
fn relays_follow_the_stake_in_the_order_of_the_nodes() {
    let state = AlpenglowState::new(vec![3, 2, 1, 0], stakes(&[(0, 1000), (1, 1500), (2, 2000), (3, 500)]));
    let coded = state.create_erasure_coded_block(Block { id: 1, parent: 0 }, frac(1.0));
    let relays = state.select_relay_nodes(1, &coded);
    // chunk i falls at i * 12345 mod 5000; the sums of the stakes are 1000, 2500, 4500, 5000
    let expect = |node_id: u32, stake_weight: u64, chunks: Vec<u32>| RelayNode {
        node_id,
        stake_weight,
        reliability_score: frac(0.95),
        assigned_chunks: chunks,
    };
    assert_eq!(
        relays,
        vec![
            expect(0, 1000, vec![0, 11, 13, 15]),
            expect(1, 1500, vec![1, 3, 5, 7, 9, 18]),
            expect(3, 500, vec![2, 17, 19]),
            expect(2, 2000, vec![4, 6, 8, 10, 12, 14, 16]),
        ]
    );
    let broke = AlpenglowState::new(vec![0, 1], stakes(&[(0, 0), (1, 0)]));
    assert!(broke.select_relay_nodes(1, &coded).is_empty());
}

#[test]
fn rotor_reconstruction() {
    let mut state = AlpenglowState::new(vec![0, 1, 2], stakes(&[(0, 1000), (1, 1000), (2, 1000)]));
    let coded = state.create_erasure_coded_block(Block { id: 1, parent: 0 }, frac(1.0));
    assert_eq!(coded.chunks.len(), 20);
    state.erasure_coded_blocks.insert(1, coded);
    for chunk in 0..9 {
        state.mark_available((1, chunk), chunk % 3);
    }
    // chunks of another block do not count, nor a second holder of the same chunk
    state.mark_available((2, 9), 0);
    state.mark_available((1, 8), 1);
    assert!(!state.can_reconstruct_block(1));
    assert!(!state.holds(ProtocolProperty::ErasureBlockAvailability));
    let before = state.clone();
    state.reconstruct_block(2, 1);
    assert_eq!(state, before);
    state.mark_available((1, 9), 0);
    assert!(state.can_reconstruct_block(1));
    assert!(state.holds(ProtocolProperty::ErasureBlockAvailability));
    assert!(!state.can_reconstruct_block(2));
    let rebuilt = step(&state, AlpenglowAction::ReconstructBlock { node: 2, block_id: 1 }).unwrap();
    for chunk in 0..20 {
        assert!(rebuilt.chunk_availability.get(&(1, chunk)).unwrap().contains(&2));
    }
    assert_eq!(rebuilt.chunk_availability.get(&(1, 8)).unwrap().len(), 2);
    assert_eq!(rebuilt.chunk_availability.get(&(1, 7)).unwrap().len(), 2);
}

#[test]
fn propagation_marks_the_chunks_of_the_propagating_relay() {
    let state = AlpenglowState::new(vec![0, 1, 2], stakes(&[(0, 1000), (1, 1000), (2, 1000)]));
    let coded = state.create_erasure_coded_block(Block { id: 4, parent: 0 }, frac(0.0));
    let relays = state.select_relay_nodes(4, &coded);
    let next = step(&state, AlpenglowAction::PropagateErasureBlock { node: 1, erasure_block: coded.clone() }).unwrap();
    assert_eq!(next.erasure_coded_blocks.get(&4), Some(&coded));
    for relay in &relays {
        assert_eq!(next.relay_assignments.get(&relay.node_id), Some(relay));
    }
    let mine = &relays.iter().find(|r| r.node_id == 1).unwrap().assigned_chunks;
    assert_eq!(next.chunk_availability.len(), mine.len());
    for chunk in mine {
        assert!(next.chunk_availability.get(&(4, *chunk)).unwrap().contains(&1));
    }
    let request = step(&next, AlpenglowAction::RequestMissingChunks { node: 0, block_id: 4, missing_chunks: vec![1] });
    assert_eq!(request.unwrap(), next);
    let assigned = step(
        &next,
        AlpenglowAction::AssignRelayNodes {
            block_id: 4,
            relay_assignments: vec![
                RelayNode { node_id: 1, stake_weight: 1, reliability_score: frac(0.5), assigned_chunks: vec![] },
                RelayNode { node_id: 1, stake_weight: 2, reliability_score: frac(0.5), assigned_chunks: vec![7] },
            ],
        },
    )
    .unwrap();
    assert_eq!(assigned.relay_assignments.get(&1).unwrap().stake_weight, 2);
}

#[test]
fn the_leader_goes_round_the_schedule() {
    let mut state = AlpenglowState::new(vec![5, 6, 7], stakes(&[(5, 1), (6, 1), (7, 1)]));
    assert_eq!(state.get_leader_for_slot(1), 5);
    assert_eq!(state.get_leader_for_slot(2), 6);
    assert_eq!(state.get_leader_for_slot(3), 7);
    assert_eq!(state.get_leader_for_slot(4), 5);
    assert_eq!(state.try_leader_for_slot(0), None);
    assert_eq!(state.try_leader_for_slot(9), Some(7));
    let before = state.clone();
    state.rotate_leader(0);
    assert_eq!(state, before);
    for slot in 1..=120 {
        state.rotate_leader(slot);
    }
    // the history keeps its latest hundred entries
    assert_eq!(state.leader_rotation.leader_history.len(), 100);
    assert_eq!(state.leader_rotation.leader_history[0], (21, 7));
    assert_eq!(state.leader_rotation.leader_history[99], (120, 7));
    assert_eq!(state.leader_rotation.current_leader, 7);
    assert!(state.holds(ProtocolProperty::LeaderRotationFairness));
}

#[test]
fn one_leader_alone_is_not_fair() {
    let mut state = AlpenglowState::new(vec![5], stakes(&[(5, 1)]));
    for slot in 1..9 {
        state.rotate_leader(slot);
    }
    assert_eq!(state.leader_rotation.leader_history.len(), 9);
    assert!(state.holds(ProtocolProperty::LeaderRotationFairness));
    state.rotate_leader(9);
    assert!(!state.holds(ProtocolProperty::LeaderRotationFairness));
}

#[test]
fn the_schedule_of_a_window_is_ordered_by_key() {
    let state = AlpenglowState::new(vec![0, 1, 2, 3], stakes(&[(0, 1000), (1, 1500), (2, 2000), (3, 500)]));
    // keys at seed 1: 0, 500, 0, 500; equal keys stay in the order of the registry
    assert_eq!(state.generate_leader_schedule_for_window(1), vec![1, 3, 0, 2]);
    let odd = AlpenglowState::new(vec![1, 2, 3, 4], stakes(&[(1, 7), (2, 11), (3, 13), (4, 3)]));
    // keys at seed 3: 21, 66, 117, 36
    assert_eq!(odd.generate_leader_schedule_for_window(3), vec![3, 2, 4, 1]);
    // a node without a stake has the key 0
    let mut more = odd.clone();
    more.nodes.push(9);
    assert_eq!(more.generate_leader_schedule_for_window(3), vec![3, 2, 4, 1, 9]);
}

#[test]
fn a_window_rolls_over_behind_its_end() {
    let mut state = AlpenglowState::new(vec![1, 2, 3, 4], stakes(&[(1, 7), (2, 11), (3, 13), (4, 3)]));
    let before = state.clone();
    state.update_window(10, 5, 1);
    assert_eq!(state, before);
    state.update_window(11, 5, 1);
    assert_eq!(state.current_window.window_start, 11);
    // keys at seed 11: 77, 242, 429, 132
    assert_eq!(state.current_window.leader_schedule, vec![3, 2, 4, 1]);
    assert_eq!(state.get_leader_for_slot(12), 2);
}

#[test]
fn a_proposal_needs_the_leader_of_the_slot() {
    let state = AlpenglowState::new(vec![5, 6, 7], stakes(&[(5, 1), (6, 1), (7, 1)]));
    let propose = |leader: u32, slot: u32| AlpenglowAction::ProposeBlock {
        leader,
        slot,
        block: Block { id: 1, parent: 0 },
        window: state.current_window.clone(),
    };
    assert_eq!(step(&state, propose(5, 3)).unwrap(), state);
    let next = step(&state, propose(7, 3)).unwrap();
    assert_eq!(next.current_slot, 3);
    let back = step(&next, propose(5, 1)).unwrap();
    assert_eq!(back.current_slot, 3);
}

#[test]
fn finalization_in_time() {
    let mut state = AlpenglowState::new(vec![0], stakes(&[(0, 1)]));
    assert!(state.check_finalization_time_bounds(3));
    assert!(state.holds(ProtocolProperty::BoundedFinalizationTime));
    state.finalization_times.insert(3, 3500);
    assert!(state.check_finalization_time_bounds(3));
    state.finalization_times.insert(4, 10);
    assert!(state.check_finalization_time_bounds(4));
    assert!(state.holds(ProtocolProperty::BoundedFinalizationTime));
    state.finalization_times.insert(2, 2501);
    assert!(!state.check_finalization_time_bounds(2));
    assert!(!state.holds(ProtocolProperty::BoundedFinalizationTime));
}
