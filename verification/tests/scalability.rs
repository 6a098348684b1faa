use alpenglow::demonstration::{can_demonstrate, is_acceptable};
use alpenglow::{
    AlpenglowState, CompactState, EssentialMetrics, Fraction, LatencyModel, Node, SamplingStrategy,
    SamplingType, SortedMap, StatisticalConfig, StatisticalResult,
};

fn frac(x: f64) -> Fraction {
    Fraction::from_micros((x * 1_000_000.0).round() as u64)
}

fn stake_map_of(nodes: &[Node]) -> SortedMap<u32, u64> {
    let mut map = SortedMap::new();
    for node in nodes {
        map.insert(node.id, node.stake);
    }
    map
}

fn network(size: u32, byzantine_every: u32, stake: impl Fn(u32) -> u64) -> (Vec<Node>, SortedMap<u32, u64>) {
    let mut nodes = vec![];
    let mut stake_map = SortedMap::new();
    for i in 0..size {
        nodes.push(Node { id: i, stake: stake(i), is_byzantine: i % byzantine_every == 0 });
        stake_map.insert(i, stake(i));
    }
    (nodes, stake_map)
}

#[test]
fn test_detailed_property_verification() {
    let nodes = vec![
        Node { id: 0, stake: 100, is_byzantine: false },
        Node { id: 1, stake: 150, is_byzantine: true },
        Node { id: 2, stake: 200, is_byzantine: false },
        Node { id: 3, stake: 250, is_byzantine: false },
    ];
    let stake_map = stake_map_of(&nodes);

    let state = AlpenglowState::new_with_nodes(nodes, stake_map);
    let properties = state.verify_detailed_scalability_properties();

    assert!(properties.len() >= 4, "Should verify multiple properties");

    for property in properties {
        println!(
            "Property '{}': {} - {}",
            property.property_name,
            if property.satisfied { "PASS" } else { "FAIL" },
            property.description
        );

        if property.property_name.contains("Node Count")
            || property.property_name.contains("Stake Distribution")
            || property.property_name.contains("Network Initialization")
        {
            assert!(property.satisfied, "Basic property '{}' should be satisfied", property.property_name);
        }
    }
}

#[test]
fn tests_scalability_test_basic_scalability_properties() {
    for network_size in vec![10, 25, 50, 100] {
        let (nodes, stake_map) = network(network_size, 8, |_| 100);

        let state = AlpenglowState::new_with_nodes(nodes, stake_map);

        assert!(state.verify_scalability_properties());

        assert!(state.nodes.len() == network_size as usize);
        assert!(state.total_stake() == (network_size as u64) * 100);

        let byzantine_count = state.byzantine_coalitions[0].members.len();
        let honest_count = network_size as usize - byzantine_count;
        assert!(honest_count > byzantine_count * 2);

        assert!(state.network_state.latency_model == LatencyModel::Constant { latency_ms: 50 });
        assert!(state.message_queue.pending_messages.is_empty());
    }
}

#[test]
fn test_large_network_creation_performance() {
    let (nodes, stake_map) = network(200, 12, |i| 50 + (i as u64 * 2));

    let start_time = std::time::Instant::now();
    let state = AlpenglowState::new_with_nodes(nodes, stake_map);
    let creation_time = start_time.elapsed();

    assert!(creation_time.as_millis() < 50);

    assert_eq!(state.nodes.len(), 200);
    assert_eq!(state.stake_distribution.len(), 200);
    assert!(state.verify_scalability_properties());

    let byzantine_count = state.byzantine_coalitions[0].members.len();
    assert_eq!(byzantine_count, 17);

    let compact_start = std::time::Instant::now();
    let compact = state.to_compact_state();
    let compact_time = compact_start.elapsed();

    assert!(compact_time.as_millis() < 10);
    assert_eq!(compact.essential_metrics.active_byzantine_nodes, 17);
}

#[test]
fn test_network_scalability_linear() {
    let mut times = vec![];
    let sizes = vec![50, 100, 150, 200];

    for &size in &sizes {
        let (nodes, stake_map) = network(size, 10, |_| 100);

        let start = std::time::Instant::now();
        let state = AlpenglowState::new_with_nodes(nodes, stake_map);
        let elapsed = start.elapsed();
        times.push(elapsed.as_nanos());

        assert_eq!(state.nodes.len(), size as usize);
        assert!(state.verify_scalability_properties());
    }

    let time_ratio = times[3] as f64 / times[0] as f64;
    let size_ratio = sizes[3] as f64 / sizes[0] as f64;

    assert!(time_ratio < size_ratio * size_ratio * 2.0);
}

#[test]
fn test_compact_state_memory_efficiency() {
    let (nodes, stake_map) = network(100, 8, |_| 100);

    let state = AlpenglowState::new_with_nodes(nodes, stake_map);
    let compact = state.to_compact_state();

    let compact2 = state.to_compact_state();
    assert_eq!(compact, compact2);

    let mut compact_set = std::collections::HashSet::new();
    compact_set.insert(compact.clone());
    assert!(compact_set.contains(&compact2));
}

#[test]
fn test_statistical_config_usage() {
    let config = StatisticalConfig {
        max_samples: 5000,
        confidence_level: frac(0.99),
        error_bound: frac(0.01),
        parallel_workers: 8,
        max_depth: Some(50),
    };

    assert_eq!(config.max_samples, 5000);
    assert_eq!(config.confidence_level, frac(0.99));
    assert_eq!(config.parallel_workers, 8);

    let strategies = vec![
        SamplingStrategy { sampling_type: SamplingType::UniformRandom, priority_weights: Vec::new() },
        SamplingStrategy { sampling_type: SamplingType::ImportanceSampling, priority_weights: Vec::new() },
    ];

    for strategy in strategies {
        assert!(strategy.priority_weights.is_empty());
    }
}

#[test]
fn test_scalability_properties_validation() {
    let nodes = vec![
        Node { id: 0, stake: 100, is_byzantine: false },
        Node { id: 1, stake: 100, is_byzantine: false },
        Node { id: 2, stake: 100, is_byzantine: false },
        Node { id: 3, stake: 100, is_byzantine: true },
    ];
    let stake_map = stake_map_of(&nodes);

    let state = AlpenglowState::new_with_nodes(nodes, stake_map);

    assert!(state.verify_scalability_properties());

    assert_eq!(state.nodes.len(), 4);
    assert_eq!(state.total_stake(), 400);
    assert!(!state.stake_distribution.is_empty());
}

#[test]
fn test_maximum_practical_network_size() {
    let (nodes, stake_map) = network(500, 20, |_| 100);

    let start_time = std::time::Instant::now();
    let state = AlpenglowState::new_with_nodes(nodes, stake_map);
    let creation_time = start_time.elapsed();

    assert!(creation_time.as_millis() < 100);
    assert_eq!(state.nodes.len(), 500);
    assert!(state.verify_scalability_properties());

    let byzantine_count = state.byzantine_coalitions[0].members.len();
    assert_eq!(byzantine_count, 25);

    let compact = state.to_compact_state();
    assert_eq!(compact.essential_metrics.active_byzantine_nodes, 25);
}

#[test]
fn test_stress_test_1000_nodes() {
    let (nodes, stake_map) = network(1000, 25, |_| 100);

    let start_time = std::time::Instant::now();
    let state = AlpenglowState::new_with_nodes(nodes, stake_map);
    let creation_time = start_time.elapsed();

    assert!(creation_time.as_millis() < 200);
    assert_eq!(state.nodes.len(), 1000);
    assert!(state.verify_scalability_properties());

    let byzantine_count = state.byzantine_coalitions[0].members.len();
    assert_eq!(byzantine_count, 40);

    let honest_count = 1000 - byzantine_count;
    assert!(honest_count > byzantine_count * 2);

    let compact_start = std::time::Instant::now();
    let compact = state.to_compact_state();
    let compact_time = compact_start.elapsed();

    assert!(compact_time.as_millis() < 20);
    assert_eq!(compact.essential_metrics.active_byzantine_nodes, 40);
}

#[test]
fn test_statistical_config_defaults() {
    let config = StatisticalConfig::default();

    assert_eq!(config.max_samples, 10000);
    assert_eq!(config.confidence_level, frac(0.95));
    assert_eq!(config.error_bound, frac(0.05));
    assert_eq!(config.parallel_workers, 4);
    assert_eq!(config.max_depth, Some(100));
}

#[test]
fn test_sampling_strategy_defaults() {
    let strategy = SamplingStrategy::default();

    assert_eq!(strategy.sampling_type, SamplingType::UniformRandom);
    assert!(strategy.priority_weights.is_empty());
}

#[test]
fn test_compact_state_representation() {
    let nodes = vec![
        Node { id: 0, stake: 100, is_byzantine: false },
        Node { id: 1, stake: 100, is_byzantine: false },
        Node { id: 2, stake: 100, is_byzantine: true },
    ];
    let stake_map = stake_map_of(&nodes);

    let state = AlpenglowState::new_with_nodes(nodes, stake_map);
    let compact = state.to_compact_state();

    let compact2 = state.to_compact_state();
    assert_eq!(compact, compact2);
    assert_eq!(compact.essential_metrics.committed_blocks, 0);
}

#[test]
fn test_node_constructor() {
    let nodes = vec![
        Node { id: 0, stake: 100, is_byzantine: false },
        Node { id: 1, stake: 150, is_byzantine: true },
        Node { id: 2, stake: 200, is_byzantine: false },
    ];
    let stake_map = stake_map_of(&nodes);

    let state = AlpenglowState::new_with_nodes(nodes, stake_map);

    assert_eq!(state.nodes.len(), 3);
    assert!(state.nodes.contains(&0));
    assert!(state.nodes.contains(&1));
    assert!(state.nodes.contains(&2));

    assert_eq!(*state.stake_distribution.get(&0).unwrap(), 100);
    assert_eq!(*state.stake_distribution.get(&1).unwrap(), 150);
    assert_eq!(*state.stake_distribution.get(&2).unwrap(), 200);

    assert!(!state.byzantine_coalitions.is_empty());
    assert!(state.byzantine_coalitions[0].members.contains(&1));
}

#[test]
fn test_essential_metrics() {
    let metrics = EssentialMetrics {
        committed_blocks: 10,
        active_byzantine_nodes: 2,
        network_partitions: 1,
        average_latency: 50,
    };

    assert_eq!(metrics.committed_blocks, 10);
    assert_eq!(metrics.active_byzantine_nodes, 2);
    assert_eq!(metrics.network_partitions, 1);
    assert_eq!(metrics.average_latency, 50);
}

#[test]
fn test_compact_state_equality() {
    let metrics1 = EssentialMetrics {
        committed_blocks: 5,
        active_byzantine_nodes: 1,
        network_partitions: 0,
        average_latency: 25,
    };

    let compact1 = CompactState {
        consensus_hash: 12345,
        network_hash: 67890,
        byzantine_hash: 11111,
        essential_metrics: metrics1.clone(),
    };

    let compact2 = CompactState {
        consensus_hash: 12345,
        network_hash: 67890,
        byzantine_hash: 11111,
        essential_metrics: metrics1,
    };

    assert_eq!(compact1, compact2);

    let mut set = std::collections::HashMap::new();
    set.insert(compact1.clone(), "test");
    assert!(set.contains_key(&compact2));
}

#[test]
fn test_large_network_state_creation() {
    let (nodes, stake_map) = network(50, 10, |i| 100 + (i as u64 * 10));

    let state = AlpenglowState::new_with_nodes(nodes, stake_map);

    assert_eq!(state.nodes.len(), 50);
    assert_eq!(state.stake_distribution.len(), 50);

    assert!(!state.byzantine_coalitions.is_empty());
    let byzantine_count = state.byzantine_coalitions[0].members.len();
    assert_eq!(byzantine_count, 5);

    let compact = state.to_compact_state();
    assert_eq!(compact.essential_metrics.active_byzantine_nodes, 5);
}

#[test]
fn test_very_large_network_performance() {
    let (nodes, stake_map) = network(100, 15, |i| 50 + (i as u64 * 5));

    let start_time = std::time::Instant::now();
    let state = AlpenglowState::new_with_nodes(nodes, stake_map);
    let creation_time = start_time.elapsed();

    assert!(creation_time.as_millis() < 10);

    assert_eq!(state.nodes.len(), 100);
    assert_eq!(state.stake_distribution.len(), 100);

    let byzantine_count = state.byzantine_coalitions[0].members.len();
    assert_eq!(byzantine_count, 7);

    let compact_start = std::time::Instant::now();
    let compact = state.to_compact_state();
    let compact_time = compact_start.elapsed();

    assert!(compact_time.as_millis() < 5);
    assert_eq!(compact.essential_metrics.active_byzantine_nodes, 7);
}

#[test]
fn test_statistical_sampling_types() {
    let sampling_types = vec![
        SamplingType::UniformRandom,
        SamplingType::ImportanceSampling,
        SamplingType::StratifiedSampling,
        SamplingType::AdaptiveSampling,
    ];

    for sampling_type in sampling_types {
        let strategy = SamplingStrategy { sampling_type: sampling_type.clone(), priority_weights: Vec::new() };
        assert_eq!(strategy.sampling_type, sampling_type);
    }
}

#[test]
fn test_network_scalability_metrics() {
    let network_sizes = vec![10, 25, 50, 100];

    for size in network_sizes {
        let (nodes, stake_map) = network(size, 10, |_| 100);

        let state = AlpenglowState::new_with_nodes(nodes, stake_map);
        let compact = state.to_compact_state();

        assert_eq!(state.nodes.len(), size as usize);

        let actual_byzantine = compact.essential_metrics.active_byzantine_nodes;
        let expected_byzantine = (0..size).filter(|&i| i % 10 == 0).count() as u32;

        if actual_byzantine != expected_byzantine {
            println!("Size: {}, Expected: {}, Actual: {}", size, expected_byzantine, actual_byzantine);
            println!("Byzantine coalitions: {:?}", state.byzantine_coalitions.len());
            for (i, coalition) in state.byzantine_coalitions.iter().enumerate() {
                println!("Coalition {}: members = {:?}", i, coalition.members);
            }
        }

        assert_eq!(actual_byzantine, expected_byzantine);

        let expected_stake = (size as u64) * 100;
        let actual_stake: u64 = state.total_stake();
        assert_eq!(actual_stake, expected_stake);
    }
}

#[test]
fn test_compact_state_compression_efficiency() {
    let nodes = vec![
        Node { id: 0, stake: 100, is_byzantine: false },
        Node { id: 1, stake: 200, is_byzantine: true },
        Node { id: 2, stake: 150, is_byzantine: false },
        Node { id: 3, stake: 300, is_byzantine: true },
    ];
    let stake_map = stake_map_of(&nodes);

    let state = AlpenglowState::new_with_nodes(nodes, stake_map);
    let compact = state.to_compact_state();

    assert_eq!(compact.essential_metrics.committed_blocks, 0);
    assert_eq!(compact.essential_metrics.active_byzantine_nodes, 2);

    let compact2 = state.to_compact_state();
    assert_eq!(compact.consensus_hash, compact2.consensus_hash);
    assert_eq!(compact.network_hash, compact2.network_hash);
    assert_eq!(compact.byzantine_hash, compact2.byzantine_hash);
}

#[test]
fn test_statistical_result_properties() {
    let high_confidence = StatisticalResult {
        samples_taken: 10000,
        property_satisfied_count: 9500,
        estimated_probability: frac(0.95),
        confidence_interval: (frac(0.94), frac(0.96)),
        convergence_achieved: true,
    };

    let low_confidence = StatisticalResult {
        samples_taken: 100,
        property_satisfied_count: 60,
        estimated_probability: frac(0.6),
        confidence_interval: (frac(0.5), frac(0.7)),
        convergence_achieved: false,
    };

    assert!(high_confidence.convergence_achieved);
    assert!(high_confidence.estimated_probability.exceeds(&frac(0.9)));
    assert!(
        high_confidence.confidence_interval.1.micros - high_confidence.confidence_interval.0.micros
            < frac(0.1).micros
    );

    assert!(!low_confidence.convergence_achieved);
    assert!(
        low_confidence.confidence_interval.1.micros - low_confidence.confidence_interval.0.micros
            > frac(0.1).micros
    );
}

#[test]
fn tests_statistical_test_basic_scalability_properties() {
    for network_size in vec![20, 50, 100] {
        let (nodes, stake_map) = network(network_size, 8, |_| 100);

        let state = AlpenglowState::new_with_nodes(nodes, stake_map);

        assert!(state.nodes.len() == network_size as usize);
        assert!(state.total_stake() == (network_size as u64) * 100);

        let byzantine_count = state.byzantine_coalitions[0].members.len();
        let honest_count = network_size as usize - byzantine_count;
        assert!(honest_count > byzantine_count * 2);

        assert!(state.network_state.latency_model == LatencyModel::Constant { latency_ms: 50 });
        assert!(state.message_queue.pending_messages.is_empty());
    }
}

#[test]
fn test_parallel_processing_readiness() {
    let nodes = vec![
        Node { id: 0, stake: 100, is_byzantine: false },
        Node { id: 1, stake: 100, is_byzantine: true },
        Node { id: 2, stake: 100, is_byzantine: false },
        Node { id: 3, stake: 100, is_byzantine: false },
    ];
    let stake_map = stake_map_of(&nodes);

    let state = AlpenglowState::new_with_nodes(nodes, stake_map);

    let state_clone = state.clone();
    assert_eq!(state.nodes.len(), state_clone.nodes.len());

    let compact = state.to_compact_state();
    let compact_clone = compact.clone();
    assert_eq!(compact, compact_clone);

    let config = StatisticalConfig::default();
    assert_eq!(config.parallel_workers, 4);
    assert_eq!(config.max_samples, 10000);
}

// Large networks, figure by figure.

#[test]
fn a_network_marks_and_joins_its_byzantine_nodes() {
    let nodes = vec![
        Node { id: 4, stake: 100, is_byzantine: true },
        Node { id: 2, stake: 150, is_byzantine: false },
        Node { id: 7, stake: 200, is_byzantine: true },
    ];
    let mut stake_map = SortedMap::new();
    stake_map.insert(4, 11);
    stake_map.insert(2, 13);
    let state = AlpenglowState::new_with_nodes(nodes, stake_map);
    assert_eq!(state.nodes, vec![4, 2, 7]);
    assert_eq!(state.total_stake(), 450);
    assert_eq!(state.byzantine_coalitions.len(), 1);
    assert_eq!(state.byzantine_coalitions[0].members, vec![4, 7]);
    // the stake of the coalition is what the stake map holds for its members
    assert_eq!(state.byzantine_coalitions[0].total_stake, 11);
    assert!(state.coalition_state.is_empty());
    assert!(state.is_byzantine(4));
    assert!(state.is_honest(2));
    assert!(state.is_byzantine(7));
    assert_eq!(state.byzantine_stake(), 300);
    assert_eq!(state.honest_stake(), 150);
    let honest = AlpenglowState::new_with_nodes(vec![Node { id: 1, stake: 5, is_byzantine: false }], SortedMap::new());
    assert!(honest.byzantine_coalitions.is_empty());
    assert_eq!(honest, AlpenglowState::new(vec![1], stake_map_of(&[Node { id: 1, stake: 5, is_byzantine: false }])));
}

#[test]
fn the_figures_of_a_state() {
    let (nodes, stake_map) = network(4, 2, |_| 100);
    let mut state = AlpenglowState::new_with_nodes(nodes, stake_map);
    assert_eq!(
        state.essential_metrics(),
        EssentialMetrics { committed_blocks: 0, active_byzantine_nodes: 2, network_partitions: 0, average_latency: 0 }
    );
    let before = state.to_compact_state();
    state.current_slot = 2;
    let after = state.to_compact_state();
    assert_ne!(before.consensus_hash, after.consensus_hash);
    assert_eq!(before.network_hash, after.network_hash);
    assert_eq!(before.byzantine_hash, after.byzantine_hash);
    state.network_state.latency_model = LatencyModel::Uniform { min_ms: 1, max_ms: 2 };
    assert_ne!(state.to_compact_state().network_hash, after.network_hash);
    state.byzantine_coalitions[0].total_stake += 1;
    assert_ne!(state.to_compact_state().byzantine_hash, after.byzantine_hash);
}

#[test]
fn a_network_without_honest_majority_is_not_scalable() {
    let (nodes, stake_map) = network(3, 1, |_| 100);
    let state = AlpenglowState::new_with_nodes(nodes, stake_map);
    assert!(!state.verify_scalability_properties());
    let results = state.verify_detailed_scalability_properties();
    let found: Vec<bool> = results.iter().map(|r| r.satisfied).collect();
    assert_eq!(found, vec![true, false, true, true]);
    assert_eq!(results[0].property_name, "Node Count Consistency");
    assert_eq!(results[0].description, "Network has 3 nodes");
    assert_eq!(results[1].description, "Honest nodes (0) > 2 * Byzantine nodes (3)");
    assert_eq!(results[2].description, "Total stake: 300");
    assert_eq!(results[3].description, "Network state properly initialized");
}

// The demonstration.

#[test]
fn test_large_network_scalability_demo() {
    // Test scaling to 100 nodes efficiently
    let result = AlpenglowState::demonstrate_large_network_scalability(100);

    assert_eq!(result.node_count, 100);
    assert!(result.performance_acceptable, "Network creation should be fast");
    assert!(result.byzantine_resilient, "Network should be Byzantine resilient");
    assert!(result.memory_efficient, "Should use memory efficiently");

    println!("Scalability Demo Results for {} nodes:", result.node_count);
    println!("  - Total creation time: {:?}", result.total_creation_time);
    println!("  - State creation time: {:?}", result.state_creation_time);
    println!("  - Properties verification time: {:?}", result.properties_verification_time);
    println!("  - Compact state time: {:?}", result.compact_state_time);
    println!("  - Total stake: {}", result.total_stake);
    println!("  - Byzantine nodes: {}", result.byzantine_node_count);
    println!("  - Honest nodes: {}", result.honest_node_count);
    println!("  - Byzantine resilient: {}", result.byzantine_resilient);
}

#[test]
fn test_scalability_comparison() {
    // Compare performance across different network sizes
    let sizes = vec![10, 50, 100, 200];

    for size in sizes {
        let result = AlpenglowState::demonstrate_large_network_scalability(size);

        // All networks should meet performance requirements
        assert!(result.performance_acceptable, "Size {} should perform well", size);
        assert!(result.byzantine_resilient, "Size {} should be Byzantine resilient", size);

        // Performance should scale reasonably
        assert!(result.total_creation_time.as_millis() < 100, "Size {} creation time too high", size);
        assert!(result.compact_state_time.as_millis() < 10, "Size {} compact time too high", size);

        println!(
            "Size {}: creation={:?}, properties={:?}, compact={:?}",
            size, result.total_creation_time, result.properties_verification_time, result.compact_state_time
        );
    }
}

#[test]
fn the_demonstration_counts_stakes_and_validators() {
    let result = AlpenglowState::demonstrate_large_network_scalability(100);
    assert_eq!(result.total_stake, 34_750);
    assert_eq!(result.byzantine_node_count, 10);
    assert_eq!(result.honest_node_count, 90);
    assert!(result.byzantine_resilient);
    assert_eq!(result.performance_acceptable, result.total_creation_time.as_millis() < 100);
    assert!(result.compact_state_time <= result.properties_verification_time);

    let result = AlpenglowState::demonstrate_large_network_scalability(11);
    assert_eq!(result.total_stake, 1_375);
    assert_eq!(result.byzantine_node_count, 2);
    assert_eq!(result.honest_node_count, 9);
    assert!(result.byzantine_resilient);

    // the only validator is Byzantine
    let result = AlpenglowState::demonstrate_large_network_scalability(1);
    assert_eq!(result.total_stake, 100);
    assert_eq!(result.byzantine_node_count, 1);
    assert_eq!(result.honest_node_count, 0);
    assert!(!result.byzantine_resilient);
    let copy = result.clone();
    assert_eq!(copy.total_creation_time, result.total_creation_time);
    assert_eq!(copy.node_count, 1);
}

#[test]
fn a_demonstration_needs_a_validator_and_a_stake_within_range() {
    assert!(!can_demonstrate(0));
    assert!(can_demonstrate(1));
    assert!(can_demonstrate(200));
    // 100 n + 5 n (n - 1) / 2 reaches 2^64 between these two
    assert!(can_demonstrate(2_716_375_806));
    assert!(!can_demonstrate(2_716_375_807));
    assert!(!can_demonstrate(usize::MAX));
}

#[test]
fn creation_is_fast_enough_below_a_hundred_milliseconds() {
    assert!(is_acceptable(0));
    assert!(is_acceptable(99));
    assert!(!is_acceptable(100));
    assert!(!is_acceptable(u128::MAX));
}
