use alpenglow::network::model_latency;
use alpenglow::{
    AlpenglowAction, AlpenglowModel, AlpenglowState, AttackPhase, Certificate, CoalitionAttackType,
    CoordinationInstruction, FailureType, Fraction, LatencyModel, MessageContent, MessagePriority,
    NetworkFailure, SkipCertificate, SortedMap, SortedSet, Vote, VotePath,
};

fn stakes(pairs: &[(u32, u64)]) -> SortedMap<u32, u64> {
    let mut map = SortedMap::new();
    for (node, stake) in pairs {
        map.insert(*node, *stake);
    }
    map
}

fn set_of(nodes: &[u32]) -> SortedSet<u32> {
    let mut set = SortedSet::new();
    for node in nodes {
        set.insert(*node);
    }
    set
}

fn frac(x: f64) -> Fraction {
    Fraction::from_micros((x * 1_000_000.0).round() as u64)
}

fn step(state: &AlpenglowState, action: AlpenglowAction) -> Option<AlpenglowState> {
    AlpenglowModel::new().next_state(state, action)
}

fn equal_stakes(nodes: &[u32]) -> AlpenglowState {
    let pairs: Vec<(u32, u64)> = nodes.iter().map(|n| (*n, 100)).collect();
    AlpenglowState::new(nodes.to_vec(), stakes(&pairs))
}

fn heartbeat(from: u32, to: u32, sequence: u64) -> AlpenglowAction {
    AlpenglowAction::SendMessage {
        from,
        to,
        content: MessageContent::Heartbeat { sequence },
        priority: MessagePriority::Normal,
    }
}

fn failure(failure_type: FailureType, start_time: u64, duration: u64) -> NetworkFailure {
    NetworkFailure { failure_type, start_time, duration, affected_nodes: vec![1, 2], severity: frac(1.0) }
}

#[test]
fn test_basic_message_sending() {
    let state = equal_stakes(&[1, 2, 3]);

    let send_action = AlpenglowAction::SendMessage {
        from: 1,
        to: 2,
        content: MessageContent::Heartbeat { sequence: 42 },
        priority: MessagePriority::Normal,
    };

    let new_state = step(&state, send_action).unwrap();

    assert_eq!(new_state.message_queue.pending_messages.len(), 1);
    assert_eq!(new_state.message_queue.pending_messages[0].from, 1);
    assert_eq!(new_state.message_queue.pending_messages[0].to, 2);
    assert!(new_state.message_queue.pending_messages[0].scheduled_delivery_time > state.global_time);
}

#[test]
fn test_message_delivery() {
    let mut state = equal_stakes(&[1, 2, 3]);

    let vote = Vote { node: 1, slot: 1, block: 0, path: VotePath::Fast, stake: 100 };

    let send_action = AlpenglowAction::SendMessage {
        from: 1,
        to: 2,
        content: MessageContent::Vote(vote.clone()),
        priority: MessagePriority::Critical,
    };

    let state_with_pending = step(&state, send_action).unwrap();
    assert_eq!(state_with_pending.message_queue.pending_messages.len(), 1);

    let message_id = state_with_pending.message_queue.pending_messages[0].id;
    state.global_time = state_with_pending.message_queue.pending_messages[0].scheduled_delivery_time;

    let deliver_action = AlpenglowAction::DeliverMessage { message_id };
    let final_state = step(&state_with_pending, deliver_action).unwrap();

    assert_eq!(final_state.message_queue.pending_messages.len(), 0);
    assert_eq!(final_state.message_queue.delivered_messages.len(), 1);

    let delivered_votes = final_state.votes.get(&2).unwrap().get(&1).unwrap();
    assert!(delivered_votes.iter().any(|v| v.node == vote.node && v.block == vote.block));
}

#[test]
fn test_latency_models() {
    let state = equal_stakes(&[1, 2]);

    let model = state.clone();

    let constant_latency = model.calculate_latency(&state, 1, 2);
    assert_eq!(constant_latency, 50);

    let mut state_uniform = state.clone();
    state_uniform.network_state.latency_model = LatencyModel::Uniform { min_ms: 10, max_ms: 100 };
    let uniform_latency = model.calculate_latency(&state_uniform, 1, 2);
    assert!(uniform_latency >= 10 && uniform_latency <= 100);

    let mut state_normal = state.clone();
    state_normal.network_state.latency_model = LatencyModel::Normal { mean_ms: 50, std_dev_ms: 10 };
    let normal_latency = model.calculate_latency(&state_normal, 1, 2);
    assert!(normal_latency > 0);

    let mut state_realistic = state.clone();
    state_realistic.network_state.latency_model =
        LatencyModel::Realistic { base_latency_ms: 20, distance_factor: 5, congestion_multiplier: 10 };
    let realistic_latency = model.calculate_latency(&state_realistic, 1, 2);
    assert!(realistic_latency >= 20);
}

#[test]
fn test_packet_loss() {
    let state = equal_stakes(&[1, 2, 3]);

    let failure = NetworkFailure {
        failure_type: FailureType::PacketLoss { loss_rate: frac(1.0) },
        start_time: 0,
        duration: 100,
        affected_nodes: vec![1, 2],
        severity: frac(1.0),
    };

    let inject_action = AlpenglowAction::InjectNetworkFailure { failure };
    let state_with_failure = step(&state, inject_action).unwrap();

    let send_action = heartbeat(1, 2, 1);

    let final_state = step(&state_with_failure, send_action).unwrap();

    assert_eq!(final_state.message_queue.pending_messages.len(), 0);
}

#[test]
fn test_network_partition_blocks_messages() {
    let state = equal_stakes(&[1, 2, 3, 4]);

    let partition_action =
        AlpenglowAction::NetworkPartition { nodes_a: set_of(&[1, 2]), nodes_b: set_of(&[3, 4]) };

    let partitioned_state = step(&state, partition_action).unwrap();

    let cross_partition_send = heartbeat(1, 3, 1);

    let state_after_cross_send = step(&partitioned_state, cross_partition_send).unwrap();
    assert_eq!(state_after_cross_send.message_queue.pending_messages.len(), 0);

    let within_partition_send = heartbeat(1, 2, 2);

    let state_after_within_send = step(&partitioned_state, within_partition_send).unwrap();
    assert_eq!(state_after_within_send.message_queue.pending_messages.len(), 1);
}

#[test]
fn test_latency_spike() {
    let state = equal_stakes(&[1, 2]);

    let failure = NetworkFailure {
        failure_type: FailureType::LatencySpike { multiplier: frac(5.0) },
        start_time: 0,
        duration: 50,
        affected_nodes: vec![1, 2],
        severity: frac(0.8),
    };

    let inject_action = AlpenglowAction::InjectNetworkFailure { failure };
    let state_with_failure = step(&state, inject_action).unwrap();

    let final_state = step(&state_with_failure, heartbeat(1, 2, 1)).unwrap();

    assert_eq!(final_state.message_queue.pending_messages.len(), 1);
    let message = &final_state.message_queue.pending_messages[0];
    let delivery_delay = message.scheduled_delivery_time - message.send_time;

    assert!(delivery_delay > 50);
}

#[test]
fn test_congestion_effects() {
    let state = equal_stakes(&[1, 2, 3]);

    let congestion_action = AlpenglowAction::SimulateCongestion { links: vec![(1, 2)], intensity: frac(0.95) };

    let congested_state = step(&state, congestion_action).unwrap();

    let final_state = step(&congested_state, heartbeat(1, 2, 1)).unwrap();

    assert_eq!(final_state.message_queue.pending_messages.len(), 1);
    let message = &final_state.message_queue.pending_messages[0];
    let delivery_delay = message.scheduled_delivery_time - message.send_time;

    assert!(delivery_delay > 50);
}

#[test]
fn test_message_priority_ordering() {
    let state = equal_stakes(&[1, 2]);

    let critical_action = AlpenglowAction::SendMessage {
        from: 1,
        to: 2,
        content: MessageContent::Vote(Vote { node: 1, slot: 1, block: 0, path: VotePath::Fast, stake: 100 }),
        priority: MessagePriority::Critical,
    };

    let normal_action = heartbeat(1, 2, 1);

    let state1 = step(&state, critical_action).unwrap();
    let state2 = step(&state1, normal_action).unwrap();

    assert_eq!(state2.message_queue.pending_messages.len(), 2);

    let priorities: Vec<_> = state2.message_queue.pending_messages.iter().map(|msg| &msg.priority).collect();

    assert!(priorities.contains(&&MessagePriority::Critical));
    assert!(priorities.contains(&&MessagePriority::Normal));
}

#[test]
fn test_network_failure_recovery() {
    let state = equal_stakes(&[1, 2]);

    let failure = NetworkFailure {
        failure_type: FailureType::LinkFailure { from: 1, to: 2 },
        start_time: 0,
        duration: 50,
        affected_nodes: vec![1, 2],
        severity: frac(1.0),
    };

    let inject_action = AlpenglowAction::InjectNetworkFailure { failure };
    let failed_state = step(&state, inject_action).unwrap();

    assert_eq!(failed_state.network_state.failure_injections.len(), 1);

    let recover_action = AlpenglowAction::RecoverFromFailure { failure_index: 0 };
    let recovered_state = step(&failed_state, recover_action).unwrap();

    assert_eq!(recovered_state.network_state.failure_injections.len(), 0);

    let final_state = step(&recovered_state, heartbeat(1, 2, 1)).unwrap();
    assert_eq!(final_state.message_queue.pending_messages.len(), 1);
}

#[test]
fn test_dynamic_latency_model_updates() {
    let state = equal_stakes(&[1, 2]);

    assert!(matches!(state.network_state.latency_model, LatencyModel::Constant { latency_ms: 50 }));

    let update_action = AlpenglowAction::UpdateLatencyModel {
        new_model: LatencyModel::Realistic { base_latency_ms: 30, distance_factor: 2, congestion_multiplier: 5 },
    };

    let updated_state = step(&state, update_action).unwrap();

    assert!(matches!(updated_state.network_state.latency_model, LatencyModel::Realistic { .. }));

    let model = state.clone();
    let new_latency = model.calculate_latency(&updated_state, 1, 2);
    assert_ne!(new_latency, 50);
}

#[test]
fn test_bandwidth_adjustment() {
    let state = equal_stakes(&[1, 2, 3]);

    assert!(state.network_state.bandwidth_limits.is_empty());

    let bandwidth_action = AlpenglowAction::AdjustBandwidth { from: 1, to: 2, new_bandwidth: 1000 };

    let limited_state = step(&state, bandwidth_action).unwrap();

    assert_eq!(limited_state.network_state.bandwidth_limits.len(), 1);
    assert_eq!(*limited_state.network_state.bandwidth_limits.get(&(1, 2)).unwrap(), 1000);
}

// The network, formula by formula.

#[test]
fn partition_isolation() {
    let state = equal_stakes(&[1, 2, 3, 4]);
    let state = step(&state, AlpenglowAction::AdvanceTime { delta: 4 }).unwrap();
    let parted =
        step(&state, AlpenglowAction::NetworkPartition { nodes_a: set_of(&[1, 2]), nodes_b: set_of(&[3, 4]) })
            .unwrap();
    assert_eq!(parted.network_partition.as_ref().unwrap().started_at, 4);
    let crossed = step(&parted, heartbeat(1, 3, 0)).unwrap();
    assert!(crossed.message_queue.pending_messages.is_empty());
    assert_eq!(crossed, parted);
    let inside = step(&parted, heartbeat(1, 2, 0)).unwrap();
    assert_eq!(inside.message_queue.pending_messages.len(), 1);
    let other_side = step(&parted, heartbeat(3, 4, 0)).unwrap();
    assert_eq!(other_side.message_queue.pending_messages.len(), 1);
    let back = step(&parted, heartbeat(4, 2, 0)).unwrap();
    assert_eq!(back, parted);
    // a node on neither side is on no opposite side
    let outside = step(&parted, heartbeat(1, 9, 0)).unwrap();
    assert_eq!(outside.message_queue.pending_messages.len(), 1);
    assert!(parted.can_node_communicate(3, 4));
    assert!(!parted.can_node_communicate(2, 4));
    assert!(!parted.can_node_communicate(1, 9));
}

#[test]
fn heal_undoes_partition() {
    let state = equal_stakes(&[1, 2, 3, 4]);
    let parted =
        step(&state, AlpenglowAction::NetworkPartition { nodes_a: set_of(&[1, 2]), nodes_b: set_of(&[3, 4]) })
            .unwrap();
    assert!(parted.is_network_partitioned());
    let healed = step(&parted, AlpenglowAction::HealPartition).unwrap();
    assert!(!healed.is_network_partitioned());
    assert_eq!(healed, state);
    assert!(healed.can_node_communicate(1, 3));
}

#[test]
fn recover_undoes_inject() {
    let state = equal_stakes(&[1, 2]);
    let first = failure(FailureType::NodeIsolation { node: 1 }, 0, 10);
    let second = failure(FailureType::LinkFailure { from: 1, to: 2 }, 5, 10);
    let third = failure(FailureType::BandwidthReduction { factor: frac(0.5) }, 5, 10);
    let one = step(&state, AlpenglowAction::InjectNetworkFailure { failure: first.clone() }).unwrap();
    let two = step(&one, AlpenglowAction::InjectNetworkFailure { failure: second.clone() }).unwrap();
    let back = step(&two, AlpenglowAction::RecoverFromFailure { failure_index: 1 }).unwrap();
    assert_eq!(back, one);
    let three = step(&two, AlpenglowAction::InjectNetworkFailure { failure: third.clone() }).unwrap();
    let middle = step(&three, AlpenglowAction::RecoverFromFailure { failure_index: 1 }).unwrap();
    assert_eq!(middle.network_state.failure_injections, vec![first, third]);
    let none = step(&three, AlpenglowAction::RecoverFromFailure { failure_index: 3 }).unwrap();
    assert_eq!(none, three);
}

#[test]
fn latency_by_formula() {
    let u0 = Fraction::zero();
    assert_eq!(model_latency(&LatencyModel::Constant { latency_ms: 7 }, u0, 1, 2, 3), 7);
    // 10 + (1 + 2 + 3) mod 90
    assert_eq!(model_latency(&LatencyModel::Uniform { min_ms: 10, max_ms: 100 }, u0, 1, 2, 3), 16);
    // 10 + (40 + 60 + 5) mod 90
    assert_eq!(model_latency(&LatencyModel::Uniform { min_ms: 10, max_ms: 100 }, u0, 40, 60, 5), 25);
    assert_eq!(model_latency(&LatencyModel::Uniform { min_ms: 10, max_ms: 10 }, u0, 1, 2, 3), 10);
    assert_eq!(model_latency(&LatencyModel::Uniform { min_ms: 10, max_ms: 9 }, u0, 1, 2, 3), 10);
    // h = (17 + 62 + 0) mod 1000 = 79; 50 + (0.079 - 0.5) * 4 * 10 = 33.16
    assert_eq!(model_latency(&LatencyModel::Normal { mean_ms: 50, std_dev_ms: 10 }, u0, 1, 2, 0), 33);
    // h = 79 + 7 * 100 = 779; 50 + 0.279 * 40 = 61.16
    assert_eq!(model_latency(&LatencyModel::Normal { mean_ms: 50, std_dev_ms: 10 }, u0, 1, 2, 100), 61);
    // far below zero: at least 1
    assert_eq!(model_latency(&LatencyModel::Normal { mean_ms: 5, std_dev_ms: 100 }, u0, 1, 2, 0), 1);
    assert_eq!(model_latency(&LatencyModel::Normal { mean_ms: 0, std_dev_ms: 0 }, u0, 1, 2, 0), 1);
    // 20 + |1 - 4| * 5 + 0.95 * 10
    let model = LatencyModel::Realistic { base_latency_ms: 20, distance_factor: 5, congestion_multiplier: 10 };
    assert_eq!(model_latency(&model, frac(0.95), 1, 4, 0), 44);
    assert_eq!(model_latency(&model, frac(0.95), 4, 1, 0), 44);
    assert_eq!(model_latency(&model, u0, 2, 2, 0), 20);
    let huge = LatencyModel::Realistic { base_latency_ms: u64::MAX, distance_factor: u64::MAX, congestion_multiplier: 1 };
    assert_eq!(model_latency(&huge, u0, 0, u32::MAX, 0), u64::MAX);
}

#[test]
fn a_message_is_due_after_latency_spikes_and_congestion() {
    let state = equal_stakes(&[1, 2, 3]);
    let state = step(&state, AlpenglowAction::AdvanceTime { delta: 3 }).unwrap();
    let plain = step(&state, heartbeat(1, 2, 0)).unwrap();
    let message = &plain.message_queue.pending_messages[0];
    assert_eq!(message.id, 0);
    assert_eq!(message.send_time, 3);
    assert_eq!(message.scheduled_delivery_time, 53);
    assert_eq!(message.retry_count, 0);
    assert_eq!(plain.message_queue.message_counter, 1);
    // two spikes in force, one that is over: floor(floor(50 * 2.5) * 1.5) = 187
    let mut spiked = state.clone();
    for (multiplier, start, duration) in [(2.5, 0, 10), (3.0, 0, 3), (1.5, 3, 1)] {
        spiked = step(
            &spiked,
            AlpenglowAction::InjectNetworkFailure {
                failure: failure(FailureType::LatencySpike { multiplier: frac(multiplier) }, start, duration),
            },
        )
        .unwrap();
    }
    let sent = step(&spiked, heartbeat(1, 2, 0)).unwrap();
    assert_eq!(sent.message_queue.pending_messages[0].scheduled_delivery_time, 3 + 187);
    // congestion above the threshold adds floor(187 * 0.9) = 168; at the threshold nothing
    let busy = step(&spiked, AlpenglowAction::SimulateCongestion { links: vec![(1, 2), (2, 3)], intensity: frac(0.9) })
        .unwrap();
    let sent = step(&busy, heartbeat(1, 2, 0)).unwrap();
    assert_eq!(sent.message_queue.pending_messages[0].scheduled_delivery_time, 3 + 187 + 168);
    let back = step(&busy, heartbeat(2, 1, 0)).unwrap();
    assert_eq!(back.message_queue.pending_messages[0].scheduled_delivery_time, 3 + 187);
    let edge = step(&spiked, AlpenglowAction::SimulateCongestion { links: vec![(1, 2)], intensity: frac(0.8) }).unwrap();
    let sent = step(&edge, heartbeat(1, 2, 0)).unwrap();
    assert_eq!(sent.message_queue.pending_messages[0].scheduled_delivery_time, 3 + 187);
}

#[test]
fn failures_drop_while_they_are_in_force() {
    let state = equal_stakes(&[1, 2, 3]);
    let link = step(
        &state,
        AlpenglowAction::InjectNetworkFailure {
            failure: failure(FailureType::LinkFailure { from: 2, to: 1 }, 0, 10),
        },
    )
    .unwrap();
    assert_eq!(step(&link, heartbeat(1, 2, 0)).unwrap(), link);
    assert_eq!(step(&link, heartbeat(2, 1, 0)).unwrap(), link);
    assert_eq!(step(&link, heartbeat(1, 3, 0)).unwrap().message_queue.pending_messages.len(), 1);
    let late = step(&link, AlpenglowAction::AdvanceTime { delta: 10 }).unwrap();
    assert_eq!(step(&late, heartbeat(1, 2, 0)).unwrap().message_queue.pending_messages.len(), 1);
    let isolated = step(
        &state,
        AlpenglowAction::InjectNetworkFailure { failure: failure(FailureType::NodeIsolation { node: 3 }, 0, 10) },
    )
    .unwrap();
    assert_eq!(step(&isolated, heartbeat(1, 3, 0)).unwrap(), isolated);
    assert_eq!(step(&isolated, heartbeat(3, 2, 0)).unwrap(), isolated);
    assert_eq!(step(&isolated, heartbeat(1, 2, 0)).unwrap().message_queue.pending_messages.len(), 1);
    // loss at 5%: (from + to + now) mod 100 must be below 5
    let lossy = step(
        &state,
        AlpenglowAction::InjectNetworkFailure {
            failure: failure(FailureType::PacketLoss { loss_rate: frac(0.05) }, 0, 10),
        },
    )
    .unwrap();
    assert_eq!(step(&lossy, heartbeat(1, 3, 0)).unwrap(), lossy);
    assert_eq!(step(&lossy, heartbeat(2, 3, 0)).unwrap().message_queue.pending_messages.len(), 1);
}

#[test]
fn delivery_applies_the_content() {
    let state = equal_stakes(&[1, 2, 3]);
    let vote = Vote { node: 1, slot: 1, block: 0, path: VotePath::Fast, stake: 100 };
    let mut votes = SortedSet::new();
    votes.insert(vote);
    let cert = Certificate { votes: votes.clone(), slot: 2, block: 0, total_stake: 100, path: VotePath::Fast };
    let skip = SkipCertificate { slot: 3, timeout_votes: votes, total_stake: 100 };
    let send = |s: &AlpenglowState, content: MessageContent| {
        step(s, AlpenglowAction::SendMessage { from: 1, to: 2, content, priority: MessagePriority::High }).unwrap()
    };
    let mut s = send(&state, MessageContent::Vote(vote));
    s = send(&s, MessageContent::Vote(Vote { stake: 7, ..vote }));
    s = send(&s, MessageContent::Certificate(cert.clone()));
    s = send(&s, MessageContent::SkipCertificate(skip.clone()));
    s = send(&s, MessageContent::Gossip { data: vec![1, 2, 3] });
    assert_eq!(s.message_queue.pending_messages.len(), 5);
    s = step(&s, AlpenglowAction::AdvanceTime { delta: 60 }).unwrap();
    for id in [1, 0, 2, 3, 4, 9] {
        s = step(&s, AlpenglowAction::DeliverMessage { message_id: id }).unwrap();
    }
    assert!(s.message_queue.pending_messages.is_empty());
    assert_eq!(s.message_queue.delivered_messages.len(), 5);
    assert_eq!(s.message_queue.delivered_messages[0].id, 1);
    assert_eq!(s.message_queue.delivered_messages[0].delivery_time, 60);
    assert_eq!(s.message_queue.delivered_messages[0].actual_latency, 60);
    // the second vote to arrive is for the same node, block and path
    assert_eq!(s.votes.get(&2).unwrap().get(&1).unwrap(), &vec![Vote { stake: 7, ..vote }]);
    assert!(s.votes.get(&1).unwrap().get(&1).unwrap().is_empty());
    assert_eq!(s.certificates.get(&2), Some(&cert));
    assert_eq!(s.skip_certs.get(&3), Some(&skip));
}

#[test]
fn delivery_steers_a_coalition() {
    let state = equal_stakes(&[1, 2, 3]);
    let formed = step(
        &state,
        AlpenglowAction::FormCoalition {
            members: vec![1, 2],
            strategy: CoalitionAttackType::DelayedFlood { delay_until_slot: 1 },
        },
    )
    .unwrap();
    let instruct = |s: &AlpenglowState, instruction: CoordinationInstruction| {
        let sent = step(
            s,
            AlpenglowAction::SendMessage {
                from: 1,
                to: 2,
                content: MessageContent::CoalitionCoordination { coalition_id: 0, instruction },
                priority: MessagePriority::Low,
            },
        )
        .unwrap();
        let id = sent.message_queue.pending_messages[0].id;
        step(&sent, AlpenglowAction::DeliverMessage { message_id: id }).unwrap()
    };
    let run = instruct(
        &formed,
        CoordinationInstruction::ExecuteAttack { strategy: CoalitionAttackType::DelayedFlood { delay_until_slot: 1 } },
    );
    assert_eq!(run.coalition_state.get(&0).unwrap().current_phase, AttackPhase::Execution);
    let again = instruct(&run, CoordinationInstruction::PrepareAttack { target_slot: 2 });
    assert_eq!(again.coalition_state.get(&0).unwrap().current_phase, AttackPhase::Preparation);
    assert!(again.coalition_state.get(&0).unwrap().active);
    let over = instruct(&again, CoordinationInstruction::AbortAttack { reason: "seen".to_string() });
    assert!(!over.coalition_state.get(&0).unwrap().active);
}

#[test]
fn dropping_removes_the_message() {
    let state = equal_stakes(&[1, 2, 3]);
    let mut s = state.clone();
    for sequence in 0..3 {
        s = step(&s, heartbeat(1, 2, sequence)).unwrap();
    }
    let dropped = step(&s, AlpenglowAction::DropMessage { message_id: 1, reason: "lost".to_string() }).unwrap();
    let ids: Vec<u64> = dropped.message_queue.pending_messages.iter().map(|m| m.id).collect();
    assert_eq!(ids, vec![0, 2]);
    assert_eq!(dropped.message_queue.message_counter, 3);
    assert!(dropped.message_queue.delivered_messages.is_empty());
    let same = step(&dropped, AlpenglowAction::DropMessage { message_id: 1, reason: "again".to_string() }).unwrap();
    assert_eq!(same, dropped);
}

#[test]
fn fractions_scale_by_flooring() {
    assert_eq!(frac(1.5).scale(10), 15);
    assert_eq!(frac(0.95).scale(187), 177);
    assert_eq!(frac(0.05).scale(3000), 150);
    assert_eq!(Fraction::from_percent(30).scale(1500), 450);
    assert_eq!(Fraction::one().scale(u64::MAX), u64::MAX);
    assert_eq!(frac(2.0).scale(u64::MAX), u64::MAX);
    assert_eq!(Fraction::zero().scale(u64::MAX), 0);
    assert!(frac(0.81).exceeds(&frac(0.8)));
    assert!(!frac(0.8).exceeds(&frac(0.8)));
}

// What is offered, in order.

#[test]
fn the_offers_of_the_first_state_in_order() {
    let state = AlpenglowModel::new().init_states().remove(0);
    let mut actions = Vec::new();
    AlpenglowModel::new().actions(&state, &mut actions);

    let mut expected = vec![AlpenglowAction::AdvanceTime { delta: 1 }];
    for node in 0..3 {
        for slot in 1..=2 {
            for block in 0..2 {
                for path in [VotePath::Fast, VotePath::Slow] {
                    expected.push(AlpenglowAction::Vote { node, slot, block, path });
                }
            }
        }
    }
    expected.push(AlpenglowAction::Certify { slot: 1, path: VotePath::Fast });
    expected.push(AlpenglowAction::Certify { slot: 1, path: VotePath::Slow });
    for node in 0..3 {
        expected.push(AlpenglowAction::Timeout { node, slot: 1 });
    }
    expected.push(AlpenglowAction::SkipCert { slot: 1 });
    for from in 0..3 {
        for to in 0..3 {
            if from != to {
                expected.push(heartbeat(from, to, 0));
            }
        }
    }
    expected.push(AlpenglowAction::SimulateCongestion { links: vec![(1, 2), (2, 1)], intensity: frac(0.9) });
    expected.push(AlpenglowAction::UpdateLatencyModel {
        new_model: LatencyModel::Normal { mean_ms: 100, std_dev_ms: 25 },
    });
    assert_eq!(actions, expected);
}

#[test]
fn a_later_state_offers_failures_and_the_sending_of_votes() {
    let mut state = equal_stakes(&[1, 2, 3, 4]);
    state.global_time = 11;
    let state = step(&state, AlpenglowAction::Vote { node: 1, slot: 1, block: 0, path: VotePath::Fast }).unwrap();
    let state = step(&state, heartbeat(1, 2, 11)).unwrap();
    let mut actions = Vec::new();
    AlpenglowModel::new().actions(&state, &mut actions);

    let failures: Vec<&AlpenglowAction> =
        actions.iter().filter(|a| matches!(a, AlpenglowAction::InjectNetworkFailure { .. })).collect();
    assert_eq!(
        failures,
        vec![
            &AlpenglowAction::InjectNetworkFailure {
                failure: NetworkFailure {
                    failure_type: FailureType::PacketLoss { loss_rate: frac(0.1) },
                    start_time: 11,
                    duration: 20,
                    affected_nodes: vec![1, 2],
                    severity: frac(0.3),
                },
            },
            &AlpenglowAction::InjectNetworkFailure {
                failure: NetworkFailure {
                    failure_type: FailureType::LatencySpike { multiplier: frac(3.0) },
                    start_time: 11,
                    duration: 15,
                    affected_nodes: vec![1, 2, 3, 4],
                    severity: frac(0.5),
                },
            },
        ]
    );

    let cast = Vote { node: 1, slot: 1, block: 0, path: VotePath::Fast, stake: 100 };
    let sent: Vec<&AlpenglowAction> = actions
        .iter()
        .filter(|a| matches!(a, AlpenglowAction::SendMessage { content: MessageContent::Vote(_), .. }))
        .collect();
    let expected: Vec<AlpenglowAction> = [2, 3, 4]
        .iter()
        .map(|to| AlpenglowAction::SendMessage {
            from: 1,
            to: *to,
            content: MessageContent::Vote(cast),
            priority: MessagePriority::Critical,
        })
        .collect();
    assert_eq!(sent, expected.iter().collect::<Vec<_>>());

    assert!(actions.contains(&AlpenglowAction::NetworkPartition { nodes_a: set_of(&[1, 2]), nodes_b: set_of(&[3, 4]) }));
    // the heartbeat is not due yet, and neither period has come round
    assert!(!actions.iter().any(|a| matches!(a, AlpenglowAction::DeliverMessage { .. })));
    assert!(!actions.iter().any(|a| matches!(a, AlpenglowAction::SimulateCongestion { .. })));
    assert!(!actions.iter().any(|a| matches!(a, AlpenglowAction::UpdateLatencyModel { .. })));

    let mut later = state.clone();
    later.global_time = 10_000;
    let mut actions = Vec::new();
    AlpenglowModel::new().actions(&later, &mut actions);
    let due: Vec<&AlpenglowAction> =
        actions.iter().filter(|a| matches!(a, AlpenglowAction::DeliverMessage { .. })).collect();
    assert_eq!(due, vec![&AlpenglowAction::DeliverMessage { message_id: later.message_queue.pending_messages[0].id }]);
}
