use dns_benchmark::stats::{
    compute_set_stats, compute_uncertainty, detect_ties, mean, overall_score, percentile,
    rank_resolvers, rank_with_order, set_score, stable_order, stddev, success_rate_bp,
    ResolverStats, ScoredResolver, SetStats,
};

/// Milliseconds, as the microseconds that the library counts in.
fn us(ms: f64) -> u32 {
    (ms * 1000.0).round() as u32
}

/// Microseconds as milliseconds.
fn ms(us: u64) -> f64 {
    us as f64 / 1000.0
}

fn stats_with_score(label: &str, score_ms: f64, success_rate: f64) -> ResolverStats {
    ResolverStats {
        label: label.to_string(),
        addr: "0.0.0.0".to_string(),
        port: 53,
        warm: SetStats::default(),
        cold: SetStats::default(),
        tld: None,
        overall_score: us(score_ms) as u64,
        success_rate_bp: (success_rate * 100.0) as u32,
        intercepts_nxdomain: false,
    }
}

fn ranked(rank: usize, label: &str, score_ms: f64, success_rate: f64) -> ScoredResolver {
    ScoredResolver { rank, stats: stats_with_score(label, score_ms, success_rate), tie_group: None }
}

#[test]
fn test_percentile_basic() {
    let values: Vec<u32> =
        vec![1.0, 2.0, 3.0, 4.0, 5.0, 6.0, 7.0, 8.0, 9.0, 10.0].into_iter().map(us).collect();
    assert_eq!(percentile(&values, 50).map(|v| ms(v as u64)), Some(5.0));
    assert_eq!(percentile(&values, 95).map(|v| ms(v as u64)), Some(10.0));
    assert_eq!(percentile(&values, 10).map(|v| ms(v as u64)), Some(1.0));
}

#[test]
fn test_percentile_empty() {
    let values: Vec<u32> = vec![];
    assert_eq!(percentile(&values, 50), None);
}

#[test]
fn test_percentile_single() {
    let values = vec![us(42.0)];
    assert_eq!(percentile(&values, 50).map(|v| ms(v as u64)), Some(42.0));
    assert_eq!(percentile(&values, 95).map(|v| ms(v as u64)), Some(42.0));
}

#[test]
fn test_mean() {
    let values: Vec<u32> = vec![1.0, 2.0, 3.0, 4.0, 5.0].into_iter().map(us).collect();
    assert_eq!(mean(&values).map(|v| ms(v as u64)), Some(3.0));
}

#[test]
fn test_stddev() {
    let values: Vec<u32> =
        vec![2.0, 4.0, 4.0, 4.0, 5.0, 5.0, 7.0, 9.0].into_iter().map(us).collect();
    let sd = ms(stddev(&values).unwrap() as u64);
    // Population stddev should be 2.0
    assert!((sd - 2.0).abs() < 0.01);
}

#[test]
fn test_set_score_no_timeouts() {
    let stats = SetStats {
        p50_us: us(20.0),
        p95_us: us(50.0),
        mean_us: us(25.0),
        stddev_us: us(10.0),
        success_count: 100,
        timeout_count: 0,
        total_count: 100,
        score: 0,
    };
    // score = 20 + 0.5*(50-20) + 5000*0 = 20 + 15 = 35
    let score = ms(set_score(&stats, us(5000.0)));
    assert!((score - 35.0).abs() < 0.01);
}

#[test]
fn test_set_score_with_timeouts() {
    let stats = SetStats {
        p50_us: us(20.0),
        p95_us: us(50.0),
        mean_us: us(25.0),
        stddev_us: us(10.0),
        success_count: 90,
        timeout_count: 10,
        total_count: 100,
        score: 0,
    };
    // score = 20 + 0.5*(50-20) + 5000*0.1 = 20 + 15 + 500 = 535
    let score = ms(set_score(&stats, us(5000.0)));
    assert!((score - 535.0).abs() < 0.01);
}

#[test]
fn test_ranking_order() {
    let resolvers = vec![
        stats_with_score("slow", 100.0, 95.0),
        stats_with_score("fast", 10.0, 99.0),
        stats_with_score("medium", 50.0, 97.0),
    ];
    let ranked = rank_resolvers(resolvers);
    assert_eq!(ranked[0].rank, 1);
    assert_eq!(ranked[0].stats.label, "fast");
    assert_eq!(ranked[1].rank, 2);
    assert_eq!(ranked[1].stats.label, "medium");
    assert_eq!(ranked[2].rank, 3);
    assert_eq!(ranked[2].stats.label, "slow");
}

#[test]
fn test_compute_uncertainty_basic() {
    // Symmetric data: deviations from median=5 are [4,3,2,1,0,1,2,3,4]
    let values: Vec<u32> =
        vec![1.0, 2.0, 3.0, 4.0, 5.0, 6.0, 7.0, 8.0, 9.0].into_iter().map(us).collect();
    let uncertainty = ms(compute_uncertainty(&values));
    // MAD of abs deviations [0,1,1,2,2,3,3,4,4] = median = 2
    // uncertainty = 1.4826 * 2 = 2.9652
    assert!((uncertainty - 2.9652).abs() < 0.01);
}

#[test]
fn test_compute_uncertainty_single() {
    let values = vec![us(42.0)];
    assert_eq!(ms(compute_uncertainty(&values)), 0.0);
}

#[test]
fn test_compute_uncertainty_empty() {
    let values: Vec<u32> = vec![];
    assert_eq!(ms(compute_uncertainty(&values)), 0.0);
}

#[test]
fn test_detect_ties_close_scores() {
    let mut resolvers = vec![
        ranked(1, "a", 10.0, 99.0),
        ranked(2, "b", 11.0, 98.0),
        ranked(3, "c", 50.0, 95.0),
    ];
    // Large uncertainties for a and b, small for c
    let uncertainties: Vec<u64> = vec![us(5.0) as u64, us(5.0) as u64, us(0.1) as u64];
    detect_ties(&mut resolvers, &uncertainties);

    // a and b should be tied (diff=1, threshold=10)
    assert_eq!(resolvers[0].tie_group, Some("1-2".to_string()));
    assert_eq!(resolvers[1].tie_group, Some("1-2".to_string()));
    // c should not be tied
    assert_eq!(resolvers[2].tie_group, None);
}

#[test]
fn test_detect_ties_no_ties() {
    let mut resolvers = vec![ranked(1, "a", 10.0, 99.0), ranked(2, "b", 100.0, 95.0)];
    // Very small uncertainties
    let uncertainties: Vec<u64> = vec![us(0.1) as u64, us(0.1) as u64];
    detect_ties(&mut resolvers, &uncertainties);

    assert_eq!(resolvers[0].tie_group, None);
    assert_eq!(resolvers[1].tie_group, None);
}

#[test]
fn percentile_follows_nearest_rank() {
    // 20 values: rank of p95 is ceil(0.95 * 20) = 19, of p50 it is 10.
    let values: Vec<u32> = (1..=20).collect();
    assert_eq!(percentile(&values, 95), Some(19));
    assert_eq!(percentile(&values, 50), Some(10));
    assert_eq!(percentile(&values, 0), Some(1));
    assert_eq!(percentile(&values, 100), Some(20));
    assert_eq!(percentile(&values, 250), Some(20));
    // 3 values: ceil(1.5) = 2
    assert_eq!(percentile(&[7, 8, 9], 50), Some(8));
}

#[test]
fn mean_and_stddev_round_down() {
    assert_eq!(mean(&[1, 2]), Some(1));
    assert_eq!(mean(&[4_000_000_000, 4_000_000_000, 4_000_000_001]), Some(4_000_000_000));
    assert_eq!(mean(&[]), None);
    assert_eq!(stddev(&[]), None);
    assert_eq!(stddev(&[5]), Some(0));
    // variance of [0, 3] is 2.25, of [1, 2, 3, 4] it is 1.25
    assert_eq!(stddev(&[0, 3]), Some(1));
    assert_eq!(stddev(&[1, 2, 3, 4]), Some(1));
    assert_eq!(stddev(&[0, 4_294_967_295]), Some(2_147_483_647));
    assert_eq!(stddev(&[0, 200]), Some(100));
}

#[test]
fn set_stats_of_nothing_are_zero() {
    let stats = compute_set_stats(&[], 0, 0, 0, 5_000_000);
    assert_eq!(stats, SetStats::default());
    assert_eq!(stats.score, 0);
}

#[test]
fn set_stats_sort_the_sample() {
    let stats = compute_set_stats(&[30_000, 10_000, 50_000, 20_000, 40_000], 5, 5, 10, 2_000_000);
    assert_eq!(stats.p50_us, 30_000);
    assert_eq!(stats.p95_us, 50_000);
    assert_eq!(stats.mean_us, 30_000);
    assert_eq!(stats.stddev_us, 14_142);
    assert_eq!(stats.success_count, 5);
    assert_eq!(stats.timeout_count, 5);
    assert_eq!(stats.total_count, 10);
    // 30 ms + 10 ms + 2000 ms * 0.5
    assert_eq!(stats.score, 1_040_000);
}

#[test]
fn set_stats_of_failures_only_carry_the_penalty() {
    let stats = compute_set_stats(&[], 0, 4, 4, 2_000_000);
    assert_eq!(stats.p50_us, 0);
    assert_eq!(stats.score, 2_000_000);
}

#[test]
fn score_rounds_down() {
    let stats = SetStats {
        p50_us: 1,
        p95_us: 2,
        mean_us: 0,
        stddev_us: 0,
        success_count: 2,
        timeout_count: 1,
        total_count: 3,
        score: 0,
    };
    // 1 + 0.5 + 10 / 3 = 4.83..
    assert_eq!(set_score(&stats, 10), 4);
    let empty = SetStats { p50_us: 3, p95_us: 6, ..SetStats::default() };
    assert_eq!(set_score(&empty, 1000), 4);
}

#[test]
fn overall_score_is_the_mean_of_warm_and_cold() {
    let warm = SetStats { score: 35_000, ..SetStats::default() };
    let cold = SetStats { score: 535_000, ..SetStats::default() };
    assert_eq!(overall_score(&warm, &cold), 285_000);
    let huge = SetStats { score: u64::MAX, ..SetStats::default() };
    assert_eq!(overall_score(&huge, &huge), u64::MAX);
}

#[test]
fn success_rate_in_hundredths_of_a_percent() {
    assert_eq!(success_rate_bp(3, 3), 10_000);
    assert_eq!(success_rate_bp(1, 3), 3_333);
    assert_eq!(success_rate_bp(0, 0), 0);
    assert_eq!(success_rate_bp(0, 7), 0);
}

#[test]
fn stable_order_keeps_equal_keys_in_place() {
    assert_eq!(stable_order(&vec![5, 1, 5, 0, 1]), vec![3, 1, 4, 0, 2]);
    assert_eq!(stable_order(&vec![]), Vec::<usize>::new());
}

#[test]
fn ranking_reports_where_each_came_from() {
    let resolvers = vec![
        stats_with_score("slow", 100.0, 95.0),
        stats_with_score("fast", 10.0, 99.0),
        stats_with_score("also fast", 10.0, 99.0),
    ];
    let (ranked, order) = rank_with_order(&resolvers);
    assert_eq!(order, vec![1, 2, 0]);
    assert_eq!(ranked[0].stats.label, "fast");
    assert_eq!(ranked[1].stats.label, "also fast");
    assert_eq!(ranked[2].stats.label, "slow");
    assert!(ranked.iter().all(|r| r.tie_group.is_none()));
}

#[test]
fn ties_chain_through_a_shared_neighbour() {
    let mut resolvers = vec![
        ranked(1, "a", 10.0, 99.0),
        ranked(2, "b", 14.0, 99.0),
        ranked(3, "c", 18.0, 99.0),
        ranked(4, "d", 90.0, 99.0),
        ranked(5, "e", 91.0, 99.0),
    ];
    // a-b and b-c overlap although a-c alone would not; d-e overlap.
    let uncertainties: Vec<u64> = vec![1_000, 4_000, 1_000, 600, 600];
    detect_ties(&mut resolvers, &uncertainties);
    assert_eq!(resolvers[0].tie_group, Some("1-3".to_string()));
    assert_eq!(resolvers[1].tie_group, Some("1-3".to_string()));
    assert_eq!(resolvers[2].tie_group, Some("1-3".to_string()));
    assert_eq!(resolvers[3].tie_group, Some("4-5".to_string()));
    assert_eq!(resolvers[4].tie_group, Some("4-5".to_string()));
}

#[test]
fn ties_need_a_strictly_smaller_difference() {
    let mut resolvers = vec![ranked(1, "a", 10.0, 99.0), ranked(2, "b", 11.0, 99.0)];
    detect_ties(&mut resolvers, &[500, 500]);
    assert_eq!(resolvers[0].tie_group, None);
    detect_ties(&mut resolvers, &[500, 501]);
    assert_eq!(resolvers[0].tie_group, Some("1-2".to_string()));
}

#[test]
fn ties_are_left_alone_when_uncertainties_do_not_match() {
    let mut resolvers = vec![ranked(1, "a", 10.0, 99.0), ranked(2, "b", 10.0, 99.0)];
    detect_ties(&mut resolvers, &[9_000]);
    assert_eq!(resolvers[0].tie_group, None);
    assert_eq!(resolvers[1].tie_group, None);
    let mut single = vec![ranked(1, "a", 10.0, 99.0)];
    detect_ties(&mut single, &[9_000]);
    assert_eq!(single[0].tie_group, None);
}

#[test]
fn tie_labels_count_past_nine() {
    let mut resolvers: Vec<ScoredResolver> =
        (0..12).map(|i| ranked(i + 1, "r", if i < 9 { i as f64 * 100.0 } else { 5000.0 }, 99.0)).collect();
    let uncertainties: Vec<u64> = vec![1; 12];
    detect_ties(&mut resolvers, &uncertainties);
    assert_eq!(resolvers[8].tie_group, None);
    assert_eq!(resolvers[9].tie_group, Some("10-12".to_string()));
    assert_eq!(resolvers[11].tie_group, Some("10-12".to_string()));
}

#[test]
fn uncertainty_sorts_before_taking_medians() {
    let values: Vec<u32> = vec![9_000, 1_000, 8_000, 2_000, 7_000, 3_000, 6_000, 4_000, 5_000];
    assert_eq!(compute_uncertainty(&values), 2_965);
    assert_eq!(compute_uncertainty(&[10_000, 10_000]), 0);
}
