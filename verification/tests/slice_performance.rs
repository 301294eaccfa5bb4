use ethos_protocol::slice_performance::{
    attestor_score, calculate_optimal_weights, record_attestor_performance, PerformanceMetrics,
    SlicePerformanceStore, TOTAL_BPS,
};

fn record_many(m: Option<PerformanceMetrics>, obs: &[(bool, u64)]) -> Option<PerformanceMetrics> {
    let mut m = m;
    for (i, (success, ms)) in obs.iter().enumerate() {
        m = Some(record_attestor_performance(m, *success, *ms, i as u64 + 1));
    }
    m
}

fn total(weights: &[u32]) -> u32 {
    weights.iter().sum()
}

fn names(v: &[&str]) -> Vec<String> {
    v.iter().map(|s| s.to_string()).collect()
}

#[test]
fn test_record_performance_creates_entry() {
    let mut store = SlicePerformanceStore::new();
    let slice_id = 1u64;
    assert!(store.get_attestor_performance(slice_id, "attestor").is_none());
    let event = store.record_attestor_performance(slice_id, "attestor".to_string(), true, 50, 7);
    assert_eq!(event.slice_id, slice_id);
    assert_eq!(event.attestor, "attestor");
    assert!(event.success);
    assert_eq!(event.response_time_ms, 50);
    let m = store.get_attestor_performance(slice_id, "attestor").unwrap();
    assert_eq!(m.total_responses, 1);
    assert_eq!(m.successful_responses, 1);
    assert_eq!(m.total_response_time_ms, 50);
    assert_eq!(m.last_recorded_at, 7);
}

#[test]
fn test_record_performance_accumulates() {
    let mut store = SlicePerformanceStore::new();
    let slice_id = 2u64;
    store.record_attestor_performance(slice_id, "attestor".to_string(), true, 100, 1);
    store.record_attestor_performance(slice_id, "attestor".to_string(), false, 200, 2);
    store.record_attestor_performance(slice_id, "attestor".to_string(), true, 150, 3);
    let m = store.get_attestor_performance(slice_id, "attestor").unwrap();
    assert_eq!(m.total_responses, 3);
    assert_eq!(m.successful_responses, 2);
    assert_eq!(m.total_response_time_ms, 450);
    // Another slice, and the pure step, agree.
    assert!(store.get_attestor_performance(3, "attestor").is_none());
    let pure = record_many(None, &[(true, 100), (false, 200), (true, 150)]).unwrap();
    assert_eq!(pure, m);
}

#[test]
fn test_weights_equal_when_no_data() {
    let store = SlicePerformanceStore::new();
    let weights = store.calculate_optimal_weights(10, &names(&["a1", "a2", "a3"]));
    assert_eq!(weights.len(), 3);
    let bps: Vec<u32> = weights.iter().map(|w| w.weight_bps).collect();
    assert_eq!(total(&bps), 10_000);
    assert_eq!(bps, vec![3334, 3333, 3333]);
    assert_eq!(weights[0].attestor, "a1");
    let pure = calculate_optimal_weights(vec![("a1", None), ("a2", None), ("a3", None)]);
    let pure_bps: Vec<u32> = pure.iter().map(|w| w.weight_bps).collect();
    assert_eq!(pure_bps, bps);
}

#[test]
fn test_weights_reflect_performance() {
    let mut store = SlicePerformanceStore::new();
    let slice_id = 20u64;
    for t in 0..10u64 {
        store.record_attestor_performance(slice_id, "a1".to_string(), true, 10, t);
    }
    store.record_attestor_performance(slice_id, "a2".to_string(), true, 100, 0);
    for t in 0..9u64 {
        store.record_attestor_performance(slice_id, "a2".to_string(), false, 100, t);
    }
    let weights = store.calculate_optimal_weights(slice_id, &names(&["a1", "a2"]));
    assert_eq!(weights.len(), 2);
    let bps: Vec<u32> = weights.iter().map(|w| w.weight_bps).collect();
    assert_eq!(total(&bps), 10_000);
    assert!(bps[0] > bps[1], "a1 weight ({}) should exceed a2 weight ({})", bps[0], bps[1]);
    // Scores: a1 = 1_000_000 / 10 = 100_000; a2 = 100_000 / 100 = 1_000.
    assert_eq!(bps, vec![9900, 100]);
    // Metrics on another slice do not count.
    let other = store.calculate_optimal_weights(21, &names(&["a1", "a2"]));
    let other_bps: Vec<u32> = other.iter().map(|w| w.weight_bps).collect();
    assert_eq!(other_bps, vec![5000, 5000]);
}

#[test]
fn test_weights_single_attestor_gets_full_bps() {
    let mut store = SlicePerformanceStore::new();
    store.record_attestor_performance(30, "a1".to_string(), true, 20, 0);
    let weights = store.calculate_optimal_weights(30, &names(&["a1"]));
    assert_eq!(weights.len(), 1);
    assert_eq!(weights[0].weight_bps, 10_000);
}

#[test]
fn test_reweight_slice_persists_and_retrieves() {
    let mut store = SlicePerformanceStore::new();
    let slice_id = 40u64;
    store.record_attestor_performance(slice_id, "a1".to_string(), true, 10, 0);
    store.record_attestor_performance(slice_id, "a2".to_string(), true, 100, 0);
    let computed = store.calculate_optimal_weights(slice_id, &names(&["a1", "a2"]));
    let event = store.reweight_slice(slice_id, computed.clone());
    assert_eq!(event.slice_id, slice_id);
    assert_eq!(event.attestor_count, 2);
    let persisted = store.get_slice_weights(slice_id).unwrap();
    assert_eq!(computed.len(), persisted.len());
    let bps: Vec<u32> = persisted.iter().map(|w| w.weight_bps).collect();
    assert_eq!(total(&bps), 10_000);
    assert_eq!(persisted, &computed);
}

#[test]
fn reweighting_replaces_only_that_slice() {
    let mut store = SlicePerformanceStore::new();
    assert!(store.get_slice_weights(1).is_none());
    let first = store.calculate_optimal_weights(1, &names(&["a", "b"]));
    store.reweight_slice(1, first.clone());
    let second = store.calculate_optimal_weights(2, &names(&["c"]));
    store.reweight_slice(2, second.clone());
    store.record_attestor_performance(1, "a".to_string(), true, 1, 0);
    let again = store.calculate_optimal_weights(1, &names(&["a", "b"]));
    store.reweight_slice(1, again.clone());
    assert_eq!(store.get_slice_weights(1).unwrap(), &again);
    assert_eq!(store.get_slice_weights(2).unwrap(), &second);
    let bps: Vec<u32> = again.iter().map(|w| w.weight_bps).collect();
    assert_eq!(bps, vec![10_000, 0]);
}

#[test]
fn no_attestors_no_weights() {
    let weights = calculate_optimal_weights::<&str>(vec![]);
    assert!(weights.is_empty());
}

#[test]
fn scores_use_success_rate_over_average_latency() {
    let m = PerformanceMetrics {
        total_responses: 4,
        successful_responses: 3,
        total_response_time_ms: 200,
        last_recorded_at: 0,
    };
    // 3/4 scaled = 750_000; average latency 50 ms.
    assert_eq!(attestor_score(&Some(m)), 15_000);
    let fast = PerformanceMetrics { total_response_time_ms: 0, ..m };
    // Average latency floors at 1 ms.
    assert_eq!(attestor_score(&Some(fast)), 750_000);
    assert_eq!(attestor_score(&None), 0);
}

#[test]
fn remainder_goes_to_the_first_equal_share_and_the_last_proportional_one() {
    let weights = calculate_optimal_weights(vec![(1u8, None), (2u8, None), (3u8, None), (4u8, None), (5u8, None), (6u8, None)]);
    let bps: Vec<u32> = weights.iter().map(|w| w.weight_bps).collect();
    assert_eq!(bps, vec![1670, 1666, 1666, 1666, 1666, 1666]);
    let m = record_many(None, &[(true, 1)]);
    let weights = calculate_optimal_weights(vec![(1u8, m), (2u8, m), (3u8, m)]);
    let bps: Vec<u32> = weights.iter().map(|w| w.weight_bps).collect();
    assert_eq!(bps, vec![3333, 3333, 3334]);
    assert_eq!(total(&bps), TOTAL_BPS);
}

#[test]
fn attestors_without_data_get_nothing_when_others_have_scores() {
    let m = record_many(None, &[(true, 5)]);
    let weights = calculate_optimal_weights(vec![("x", None), ("y", m)]);
    let bps: Vec<u32> = weights.iter().map(|w| w.weight_bps).collect();
    assert_eq!(bps, vec![0, 10_000]);
}
