use dns_benchmark::aggregate::aggregate;
use dns_benchmark::bench::{
    build_tasks, clone_tasks, prepare_task, prepare_task_with_txid, query_types, shuffled_round,
    BenchmarkRun, CompletedQuery, DomainSet, PreparedQuery, QueryTask, RngSource,
};
use dns_benchmark::characterize::{apply_characterization, prepare_probe, PreparedProbe, ProbeReport};
use dns_benchmark::cli::{millis_to_micros, Cli};
use dns_benchmark::discovery::{
    keep_top, ranking_needed, ranking_tasks, reachable_resolvers, screen_domain, screen_tasks,
    SCREEN_TIMEOUT_US,
};
use dns_benchmark::dns::build_query;
use dns_benchmark::results::{benchmark_results, drop_slow_resolvers, resolver_profile};
use dns_benchmark::transport::{
    BenchmarkConfig, IpFamily, QueryResult, QueryType, ResolverConfig,
};
use hickory_proto::op::{Message, MessageType};

fn resolver(label: &str, ip: &str) -> ResolverConfig {
    ResolverConfig {
        label: label.to_string(),
        ip: ip.to_string(),
        port: 53,
        family: IpFamily::V4,
        intercepts_nxdomain: false,
    }
}

fn resolver_at(label: &str, ip: &str, port: u16) -> ResolverConfig {
    ResolverConfig { port, ..resolver(label, ip) }
}

fn names(list: &[&str]) -> Vec<String> {
    list.iter().map(|s| s.to_string()).collect()
}

fn config() -> BenchmarkConfig {
    BenchmarkConfig {
        rounds: 3,
        timeout_us: 2_000_000,
        max_inflight: 64,
        inter_query_spacing_us: 5_000,
        query_aaaa: false,
        seed: Some(1),
        dnssec: false,
        query_tld: true,
        discover: false,
        top_n: 50,
        max_resolver_us: 1_000_000,
    }
}

fn task(r: &ResolverConfig, domain: &str, set: DomainSet) -> QueryTask {
    QueryTask { resolver: r.clone(), domain: domain.to_string(), query_type: QueryType::A, set }
}

fn success(t: QueryTask, latency_us: u32) -> CompletedQuery {
    let result = QueryResult {
        resolver: t.resolver.ip.clone(),
        port: t.resolver.port,
        domain: t.domain.clone(),
        query_type: t.query_type,
        rcode: Some("No Error".to_string()),
        latency_us,
        success: true,
        timeout: false,
    };
    CompletedQuery { task: t, result }
}

fn timeout(t: QueryTask, latency_us: u32) -> CompletedQuery {
    let result = QueryResult {
        resolver: t.resolver.ip.clone(),
        port: t.resolver.port,
        domain: t.domain.clone(),
        query_type: t.query_type,
        rcode: None,
        latency_us,
        success: false,
        timeout: true,
    };
    CompletedQuery { task: t, result }
}

fn refused(t: QueryTask, latency_us: u32) -> CompletedQuery {
    let result = QueryResult {
        resolver: t.resolver.ip.clone(),
        port: t.resolver.port,
        domain: t.domain.clone(),
        query_type: t.query_type,
        rcode: Some("Query Refused".to_string()),
        latency_us,
        success: false,
        timeout: false,
    };
    CompletedQuery { task: t, result }
}

fn describe(t: &QueryTask) -> (String, String, QueryType, DomainSet) {
    (t.resolver.ip.clone(), t.domain.clone(), t.query_type, t.set)
}

#[test]
fn tasks_are_the_cross_product_in_order() {
    let resolvers = vec![resolver("one", "192.0.2.1"), resolver("two", "192.0.2.2")];
    let mut cfg = config();
    cfg.query_aaaa = true;
    let tasks = build_tasks(&resolvers, &names(&["w1", "w2"]), &names(&["c1"]), &names(&["t1"]), &cfg);
    let got: Vec<_> = tasks.iter().map(describe).collect();
    let mut want = Vec::new();
    for ip in ["192.0.2.1", "192.0.2.2"] {
        for (domain, set) in [
            ("w1", DomainSet::Warm),
            ("w2", DomainSet::Warm),
            ("c1", DomainSet::Cold),
            ("t1", DomainSet::Tld),
        ] {
            for qt in [QueryType::A, QueryType::AAAA] {
                want.push((ip.to_string(), domain.to_string(), qt, set));
            }
        }
    }
    assert_eq!(got, want);
    assert_eq!(tasks[0].resolver.label, "one");
}

#[test]
fn tld_and_aaaa_are_optional() {
    let resolvers = vec![resolver("one", "192.0.2.1")];
    let mut cfg = config();
    cfg.query_tld = false;
    let tasks = build_tasks(&resolvers, &names(&["w1"]), &names(&["c1", "c2"]), &names(&["t1"]), &cfg);
    let got: Vec<_> = tasks.iter().map(|t| (t.domain.clone(), t.query_type, t.set)).collect();
    assert_eq!(
        got,
        vec![
            ("w1".to_string(), QueryType::A, DomainSet::Warm),
            ("c1".to_string(), QueryType::A, DomainSet::Cold),
            ("c2".to_string(), QueryType::A, DomainSet::Cold),
        ]
    );
    assert_eq!(query_types(false), vec![QueryType::A]);
    assert_eq!(query_types(true), vec![QueryType::A, QueryType::AAAA]);
    assert!(build_tasks(&vec![], &names(&["w1"]), &names(&[]), &names(&[]), &cfg).is_empty());
    assert_eq!(DomainSet::Warm.name(), "warm");
    assert_eq!(DomainSet::Cold.name(), "cold");
    assert_eq!(DomainSet::Tld.name(), "tld");
}

#[test]
fn a_round_is_a_rearrangement_of_the_tasks() {
    let resolvers: Vec<ResolverConfig> =
        (0..10).map(|i| resolver("r", &format!("192.0.2.{}", i))).collect();
    let tasks = build_tasks(&resolvers, &names(&["a", "b", "c"]), &names(&["d", "e"]), &names(&[]), &config());
    assert_eq!(tasks.len(), 50);
    let mut rng = RngSource::from_seed(Some(42)).generator().unwrap();
    let round = shuffled_round(&tasks, &mut rng);
    let in_order: Vec<_> = tasks.iter().map(describe).collect();
    let shuffled: Vec<_> = round.iter().map(describe).collect();
    assert_ne!(in_order, shuffled);
    let mut a: Vec<String> = in_order.iter().map(|t| format!("{:?}", t)).collect();
    let mut b: Vec<String> = shuffled.iter().map(|t| format!("{:?}", t)).collect();
    a.sort();
    b.sort();
    assert_eq!(a, b);
    let copy = clone_tasks(&tasks);
    assert_eq!(copy.iter().map(describe).collect::<Vec<_>>(), in_order);
}

#[test]
fn a_seed_makes_the_rounds_repeatable() {
    let resolvers: Vec<ResolverConfig> =
        (0..8).map(|i| resolver("r", &format!("192.0.2.{}", i))).collect();
    let tasks = build_tasks(&resolvers, &names(&["a", "b"]), &names(&["c"]), &names(&[]), &config());
    let rounds_of = |source: RngSource| {
        let mut rng = source.generator().unwrap();
        let first: Vec<_> = shuffled_round(&tasks, &mut rng).iter().map(describe).collect();
        let second: Vec<_> = shuffled_round(&tasks, &mut rng).iter().map(describe).collect();
        (first, second)
    };
    assert_eq!(RngSource::from_seed(Some(7)), RngSource::Seeded(7));
    assert_eq!(RngSource::from_seed(None), RngSource::Entropy);
    let (first, second) = rounds_of(RngSource::Seeded(7));
    let (first_again, second_again) = rounds_of(RngSource::Seeded(7));
    assert_eq!(first, first_again);
    assert_eq!(second, second_again);
    assert_ne!(first, second);
    let (entropy, _) = rounds_of(RngSource::Entropy);
    assert_eq!(entropy.len(), tasks.len());
}

#[test]
fn rounds_are_handed_out_one_at_a_time() {
    let r = resolver("one", "192.0.2.1");
    let tasks = vec![task(&r, "a", DomainSet::Warm), task(&r, "b", DomainSet::Cold)];
    let mut rng = RngSource::Seeded(3).generator().unwrap();
    let mut run = BenchmarkRun::new(tasks, 2);
    assert!(!run.is_finished());
    let round = run.begin_round(&mut rng).unwrap();
    assert_eq!(round.len(), 2);
    assert!(run.in_flight);
    // no second round while the first is in flight
    assert!(run.begin_round(&mut rng).is_none());
    assert!(!run.is_finished());
    run.end_round(round.into_iter().map(|t| success(t, 10)).collect());
    assert_eq!(run.rounds_done, 1);
    assert_eq!(run.completed.len(), 2);
    // handing back without a round in flight changes nothing
    run.end_round(vec![timeout(task(&r, "x", DomainSet::Warm), 5)]);
    assert_eq!(run.rounds_done, 1);
    assert_eq!(run.completed.len(), 2);
    let round = run.begin_round(&mut rng).unwrap();
    // a task whose execution failed is simply absent
    run.end_round(round.into_iter().take(1).map(|t| timeout(t, 10)).collect());
    assert_eq!(run.completed.len(), 3);
    assert!(run.is_finished());
    assert!(run.begin_round(&mut rng).is_none());
    let mut none = BenchmarkRun::new(vec![], 0);
    assert!(none.is_finished());
    assert!(none.begin_round(&mut rng).is_none());
}

#[test]
fn prepared_tasks_carry_query_and_exchange() {
    let r = resolver("one", "192.0.2.1");
    let t = QueryTask { resolver: r, domain: "example.com".to_string(), query_type: QueryType::AAAA, set: DomainSet::Cold };
    match prepare_task_with_txid(&t, 513, true, 2_000_000) {
        PreparedQuery::Ready { bytes, exchange } => {
            assert_eq!(bytes, build_query("example.com", QueryType::AAAA, 513, true).unwrap());
            assert_eq!(exchange.txid, 513);
            assert_eq!(exchange.resolver, "192.0.2.1");
            assert_eq!(exchange.port, 53);
            assert_eq!(exchange.domain, "example.com");
            assert_eq!(exchange.query_type, QueryType::AAAA);
            assert_eq!(exchange.timeout_us, 2_000_000);
            assert_eq!(exchange.attempts, 0);
        }
        PreparedQuery::Failed(result) => panic!("not prepared: {:?}", result),
    }
    match prepare_task(&t, false, 1_000).unwrap() {
        PreparedQuery::Ready { bytes, exchange } => {
            assert_eq!(bytes[0], (exchange.txid >> 8) as u8);
            assert_eq!(bytes[1], (exchange.txid & 0xff) as u8);
            assert_eq!(bytes, build_query("example.com", QueryType::AAAA, exchange.txid, false).unwrap());
        }
        PreparedQuery::Failed(result) => panic!("not prepared: {:?}", result),
    }
}

#[test]
fn an_unencodable_name_ends_the_task_at_once() {
    let r = resolver("one", "192.0.2.1");
    let t = QueryTask { resolver: r, domain: "a".repeat(70), query_type: QueryType::A, set: DomainSet::Warm };
    for prepared in [prepare_task_with_txid(&t, 1, false, 2_000_000), prepare_task(&t, true, 2_000_000).unwrap()] {
        match prepared {
            PreparedQuery::Failed(result) => {
                assert!(!result.success);
                assert!(!result.timeout);
                assert_eq!(result.latency_us, 0);
                assert_eq!(result.rcode, None);
                assert_eq!(result.resolver, "192.0.2.1");
                assert_eq!(result.port, 53);
                assert_eq!(result.domain, "a".repeat(70));
            }
            PreparedQuery::Ready { .. } => panic!("prepared an unencodable name"),
        }
    }
}

#[test]
fn outcomes_are_grouped_by_resolver_and_set() {
    let a = resolver("a", "192.0.2.1");
    let b = resolver("b", "192.0.2.2");
    let outcomes = vec![
        success(task(&b, "w1", DomainSet::Warm), 30),
        success(task(&a, "w1", DomainSet::Warm), 10),
        timeout(task(&a, "w2", DomainSet::Warm), 2_000_000),
        success(task(&a, "c1", DomainSet::Cold), 50),
        refused(task(&b, "t1", DomainSet::Tld), 40),
        success(task(&a, "w3", DomainSet::Warm), 20),
    ];
    let tallies = aggregate(&outcomes);
    assert_eq!(tallies.len(), 2);
    assert_eq!(tallies[0].resolver, "192.0.2.2");
    assert_eq!(tallies[0].warm.latencies, vec![30]);
    assert_eq!((tallies[0].warm.success, tallies[0].warm.timeout, tallies[0].warm.total), (1, 0, 1));
    assert_eq!((tallies[0].tld.success, tallies[0].tld.timeout, tallies[0].tld.total), (0, 0, 1));
    assert!(tallies[0].tld.latencies.is_empty());
    assert_eq!(tallies[0].cold.total, 0);
    assert_eq!(tallies[1].resolver, "192.0.2.1");
    assert_eq!(tallies[1].warm.latencies, vec![10, 20]);
    assert_eq!((tallies[1].warm.success, tallies[1].warm.timeout, tallies[1].warm.total), (2, 1, 3));
    assert_eq!(tallies[1].cold.latencies, vec![50]);
    assert_eq!(tallies[1].tld.total, 0);
    assert!(aggregate(&vec![]).is_empty());
}

#[test]
fn profiles_summarize_every_set() {
    let a = resolver("Alpha", "192.0.2.1");
    let mut flagged = resolver("Beta", "192.0.2.2");
    flagged.intercepts_nxdomain = true;
    let resolvers = vec![a.clone(), flagged.clone()];
    let outcomes = vec![
        success(task(&flagged, "w1", DomainSet::Warm), 20_000),
        success(task(&flagged, "w2", DomainSet::Warm), 40_000),
        timeout(task(&flagged, "c1", DomainSet::Cold), 2_000_000),
        success(task(&flagged, "c2", DomainSet::Cold), 60_000),
        success(task(&flagged, "t1", DomainSet::Tld), 80_000),
    ];
    let tallies = aggregate(&outcomes);
    let profile = resolver_profile(&tallies[0], &resolvers, &config());
    assert_eq!(profile.label, "Beta");
    assert_eq!(profile.addr, "192.0.2.2");
    assert!(profile.intercepts_nxdomain);
    assert_eq!(profile.warm.p50_us, 20_000);
    assert_eq!(profile.warm.p95_us, 40_000);
    assert_eq!(profile.warm.score, 30_000);
    assert_eq!(profile.cold.p50_us, 60_000);
    assert_eq!(profile.cold.timeout_count, 1);
    // 60 ms + 2000 ms * 1/2
    assert_eq!(profile.cold.score, 1_060_000);
    assert_eq!(profile.tld.unwrap().p50_us, 80_000);
    // the TLD set never contributes to the overall score
    assert_eq!(profile.overall_score, 545_000);
    assert_eq!(profile.success_rate_bp, 8_000);

    let mut no_tld = config();
    no_tld.query_tld = false;
    assert!(resolver_profile(&tallies[0], &resolvers, &no_tld).tld.is_none());
    // an address that was never configured is its own label
    let unknown = resolver_profile(&tallies[0], &vec![a], &config());
    assert_eq!(unknown.label, "192.0.2.2");
    assert!(!unknown.intercepts_nxdomain);
}

#[test]
fn tld_statistics_need_a_tld_query() {
    let a = resolver("Alpha", "192.0.2.1");
    let outcomes = vec![success(task(&a, "w1", DomainSet::Warm), 20_000)];
    let tallies = aggregate(&outcomes);
    let profile = resolver_profile(&tallies[0], &vec![a], &config());
    assert!(profile.tld.is_none());
    assert_eq!(profile.cold.score, 0);
    assert_eq!(profile.overall_score, 10_000);
    assert_eq!(profile.success_rate_bp, 10_000);
}

#[test]
fn benchmark_results_rank_and_group() {
    let fast = resolver("fast", "192.0.2.1");
    let near = resolver("near", "192.0.2.2");
    let slow = resolver("slow", "192.0.2.3");
    let dead = resolver("dead", "192.0.2.4");
    let resolvers = vec![slow.clone(), fast.clone(), dead.clone(), near.clone()];
    let mut outcomes = Vec::new();
    for round in 0..3u32 {
        for (r, base) in [(&slow, 90_000u32), (&fast, 10_000), (&near, 11_000)] {
            outcomes.push(success(task(r, "w", DomainSet::Warm), base + round * 4_000));
            outcomes.push(success(task(r, "c", DomainSet::Cold), base + round * 4_000));
        }
        outcomes.push(timeout(task(&dead, "w", DomainSet::Warm), 2_000_000));
        outcomes.push(timeout(task(&dead, "c", DomainSet::Cold), 2_000_000));
    }
    let ranked = benchmark_results(&resolvers, &outcomes, &config());
    let labels: Vec<&str> = ranked.iter().map(|r| r.stats.label.as_str()).collect();
    assert_eq!(labels, vec!["fast", "near", "slow", "dead"]);
    assert_eq!(ranked.iter().map(|r| r.rank).collect::<Vec<_>>(), vec![1, 2, 3, 4]);
    // fast and near differ by 1 ms with uncertainties of 1.4826 * 4 ms each
    assert_eq!(ranked[0].tie_group, Some("1-2".to_string()));
    assert_eq!(ranked[1].tie_group, Some("1-2".to_string()));
    assert_eq!(ranked[2].tie_group, None);
    assert_eq!(ranked[3].tie_group, None);
    assert_eq!(ranked[0].stats.warm.p50_us, 14_000);
    assert_eq!(ranked[0].stats.overall_score, 16_000);
    assert_eq!(ranked[3].stats.overall_score, 2_000_000);
    assert_eq!(ranked[3].stats.success_rate_bp, 0);
    assert!(ranked[3].stats.warm.score > ranked[2].stats.warm.score);
    assert!(benchmark_results(&resolvers, &vec![], &config()).is_empty());
}

#[test]
fn stable_resolver_end_to_end() {
    // A resolver that answers every query with NOERROR after 20 ms:
    // 3 rounds, 1 warm domain, A only.
    let r = resolver("R", "192.0.2.53");
    let mut cfg = config();
    cfg.query_tld = false;
    let tasks = build_tasks(&vec![r.clone()], &names(&["example.com"]), &names(&[]), &names(&[]), &cfg);
    assert_eq!(tasks.len(), 1);
    let mut rng = RngSource::from_seed(cfg.seed).generator().unwrap();
    let mut run = BenchmarkRun::new(tasks, cfg.rounds);
    let mut txid = 1000u16;
    loop {
        let round = match run.begin_round(&mut rng) {
            Some(round) => round,
            None => break,
        };
        let mut outcomes = Vec::new();
        for t in round {
            txid += 1;
            let result = match prepare_task_with_txid(&t, txid, cfg.dnssec, cfg.timeout_us) {
                PreparedQuery::Failed(result) => result,
                PreparedQuery::Ready { bytes, mut exchange } => {
                    let mut response = Message::from_vec(&bytes).unwrap();
                    response.set_message_type(MessageType::Response);
                    let datagram = response.to_vec().unwrap();
                    assert!(matches!(
                        exchange.next_step(0),
                        dns_benchmark::exchange::ExchangeStep::Receive { remaining_us: 2_000_000 }
                    ));
                    exchange.on_datagram(&datagram, 20_000).unwrap()
                }
            };
            outcomes.push(CompletedQuery { task: t, result });
        }
        run.end_round(outcomes);
    }
    assert!(run.is_finished());
    assert_eq!(run.completed.len(), 3);
    let ranked = benchmark_results(&vec![r], &run.completed, &cfg);
    assert_eq!(ranked.len(), 1);
    assert_eq!(ranked[0].rank, 1);
    assert_eq!(ranked[0].stats.label, "R");
    assert!((ranked[0].stats.warm.p50_us as f64 / 1000.0 - 20.0).abs() < 0.01);
    assert_eq!(ranked[0].stats.warm.total_count, 3);
    assert_eq!(ranked[0].stats.success_rate_bp as f64 / 100.0, 100.0);
    assert_eq!(ranked[0].tie_group, None);
}

#[test]
fn slow_resolvers_are_dropped_and_the_rest_renumbered() {
    let a = resolver("a", "192.0.2.1");
    let b = resolver("b", "192.0.2.2");
    let c = resolver("c", "192.0.2.3");
    let outcomes = vec![
        success(task(&a, "w", DomainSet::Warm), 10_000),
        success(task(&a, "c", DomainSet::Cold), 4_000_000),
        success(task(&b, "w", DomainSet::Warm), 1_500_000),
        success(task(&b, "c", DomainSet::Cold), 10_000),
        success(task(&c, "w", DomainSet::Warm), 1_000_000),
        success(task(&c, "c", DomainSet::Cold), 1_000_000),
    ];
    let ranked = benchmark_results(&vec![a, b, c], &outcomes, &config());
    assert_eq!(ranked.iter().map(|r| r.stats.label.as_str()).collect::<Vec<_>>(), vec!["b", "c", "a"]);
    let kept = drop_slow_resolvers(&ranked, 1_000_000);
    assert_eq!(kept.iter().map(|r| r.stats.label.as_str()).collect::<Vec<_>>(), vec!["c", "a"]);
    assert_eq!(kept.iter().map(|r| r.rank).collect::<Vec<_>>(), vec![1, 2]);
    assert!(kept.iter().all(|r| r.tie_group.is_none()));
    assert_eq!(drop_slow_resolvers(&ranked, u32::MAX).len(), 3);
    assert!(drop_slow_resolvers(&ranked, 0).is_empty());
}

#[test]
fn the_screen_asks_every_candidate_once() {
    let candidates = vec![resolver("a", "192.0.2.1"), resolver("b", "192.0.2.2")];
    let tasks = screen_tasks(&candidates, &names(&["first.example", "second.example"]));
    assert_eq!(tasks.len(), 2);
    assert!(tasks.iter().all(|t| t.domain == "first.example" && t.query_type == QueryType::A));
    assert_eq!(tasks[1].resolver.ip, "192.0.2.2");
    assert_eq!(screen_domain(&names(&[])), "google.com");
    assert_eq!(screen_tasks(&candidates, &names(&[]))[0].domain, "google.com");
    assert_eq!(SCREEN_TIMEOUT_US, 500_000);
}

#[test]
fn unreachable_candidates_are_dropped() {
    let a = resolver("a", "192.0.2.1");
    let b = resolver("b", "192.0.2.2");
    let c = resolver("c", "192.0.2.3");
    let d = resolver("d", "192.0.2.4");
    let screened = vec![
        success(task(&a, "w", DomainSet::Warm), 10),
        timeout(task(&b, "w", DomainSet::Warm), 500_000),
        refused(task(&c, "w", DomainSet::Warm), 20),
        success(task(&d, "w", DomainSet::Warm), 30),
    ];
    let survivors = reachable_resolvers(&screened);
    assert_eq!(survivors.iter().map(|r| r.label.as_str()).collect::<Vec<_>>(), vec!["a", "d"]);
    assert!(!ranking_needed(&survivors, 2));
    assert!(!ranking_needed(&survivors, 3));
    assert!(ranking_needed(&survivors, 1));
    let tasks = ranking_tasks(&survivors, &names(&["w1", "w2"]));
    let got: Vec<_> = tasks.iter().map(describe).collect();
    assert_eq!(
        got,
        vec![
            ("192.0.2.1".to_string(), "w1".to_string(), QueryType::A, DomainSet::Warm),
            ("192.0.2.1".to_string(), "w2".to_string(), QueryType::A, DomainSet::Warm),
            ("192.0.2.4".to_string(), "w1".to_string(), QueryType::A, DomainSet::Warm),
            ("192.0.2.4".to_string(), "w2".to_string(), QueryType::A, DomainSet::Warm),
        ]
    );
}

#[test]
fn the_quick_ranking_keeps_the_best() {
    let a = resolver("a", "192.0.2.1");
    let b = resolver("b", "192.0.2.2");
    let c = resolver("c", "192.0.2.3");
    let d = resolver("d", "192.0.2.4");
    let survivors = vec![a.clone(), b.clone(), c.clone(), d.clone()];
    let outcomes = vec![
        success(task(&a, "w1", DomainSet::Warm), 50_000),
        success(task(&b, "w1", DomainSet::Warm), 10_000),
        timeout(task(&c, "w1", DomainSet::Warm), 2_000_000),
        success(task(&d, "w1", DomainSet::Warm), 30_000),
        success(task(&a, "w2", DomainSet::Warm), 50_000),
        success(task(&b, "w2", DomainSet::Warm), 12_000),
        timeout(task(&c, "w2", DomainSet::Warm), 2_000_000),
        timeout(task(&d, "w2", DomainSet::Warm), 2_000_000),
    ];
    let labels = |kept: Vec<ResolverConfig>| kept.iter().map(|r| r.label.clone()).collect::<Vec<_>>();
    // Scores: b 11 ms, a 50 ms, d 30 ms + half the penalty, c the whole
    // penalty. The kept survivors stay in the survivors' order.
    assert_eq!(labels(keep_top(&survivors, &outcomes, 1, 2_000_000)), vec!["b"]);
    assert_eq!(labels(keep_top(&survivors, &outcomes, 2, 2_000_000)), vec!["a", "b"]);
    assert_eq!(labels(keep_top(&survivors, &outcomes, 3, 2_000_000)), vec!["a", "b", "d"]);
    assert_eq!(labels(keep_top(&survivors, &outcomes, 4, 2_000_000)), vec!["a", "b", "c", "d"]);
    assert_eq!(labels(keep_top(&survivors, &outcomes, 10, 2_000_000)), vec!["a", "b", "c", "d"]);
    assert!(keep_top(&survivors, &outcomes, 0, 2_000_000).is_empty());
}

#[test]
fn a_timeout_costs_more_than_a_slow_answer() {
    let steady = resolver("steady", "192.0.2.1");
    let flaky = resolver("flaky", "192.0.2.2");
    let survivors = vec![flaky.clone(), steady.clone()];
    let outcomes = vec![
        success(task(&flaky, "w1", DomainSet::Warm), 30_000),
        timeout(task(&flaky, "w2", DomainSet::Warm), 2_000_000),
        success(task(&steady, "w1", DomainSet::Warm), 50_000),
        success(task(&steady, "w2", DomainSet::Warm), 50_000),
    ];
    let kept = keep_top(&survivors, &outcomes, 1, 2_000_000);
    assert_eq!(kept.len(), 1);
    assert_eq!(kept[0].label, "steady");
}

#[test]
fn the_quick_ranking_never_comes_back_empty_handed() {
    let survivors: Vec<ResolverConfig> =
        (0..5).map(|i| resolver(&format!("r{}", i), &format!("192.0.2.{}", i))).collect();
    // every query of the ranking failed
    let outcomes: Vec<CompletedQuery> =
        survivors.iter().map(|r| timeout(task(r, "w1", DomainSet::Warm), 2_000_000)).collect();
    let kept = keep_top(&survivors, &outcomes, 3, 2_000_000);
    assert_eq!(kept.iter().map(|r| r.label.as_str()).collect::<Vec<_>>(), vec!["r0", "r1", "r2"]);
    // no outcome at all
    let kept = keep_top(&survivors, &vec![], 2, 2_000_000);
    assert_eq!(kept.iter().map(|r| r.label.as_str()).collect::<Vec<_>>(), vec!["r0", "r1"]);
    // cold outcomes do not count towards the warm score
    let outcomes = vec![
        success(task(&survivors[0], "w1", DomainSet::Warm), 40_000),
        success(task(&survivors[1], "w1", DomainSet::Warm), 20_000),
        timeout(task(&survivors[1], "c1", DomainSet::Cold), 2_000_000),
    ];
    let kept = keep_top(&survivors[..2].to_vec(), &outcomes, 1, 2_000_000);
    assert_eq!(kept[0].label, "r1");
}

#[test]
fn the_quick_ranking_tells_ports_apart() {
    let fast = resolver_at("fast", "127.0.0.1", 5301);
    let slow = resolver_at("slow", "127.0.0.1", 5302);
    let other = resolver_at("other", "127.0.0.2", 5301);
    let survivors = vec![slow.clone(), other.clone(), fast.clone()];
    let outcomes = vec![
        success(task(&slow, "w1", DomainSet::Warm), 90_000),
        success(task(&other, "w1", DomainSet::Warm), 50_000),
        success(task(&fast, "w1", DomainSet::Warm), 10_000),
    ];
    let kept = keep_top(&survivors, &outcomes, 2, 2_000_000);
    assert_eq!(kept.iter().map(|r| r.label.as_str()).collect::<Vec<_>>(), vec!["other", "fast"]);
}

#[test]
fn two_ports_on_one_ip_are_two_resolvers() {
    let a = resolver_at("A", "127.0.0.1", 5301);
    let b = resolver_at("B", "127.0.0.1", 5302);
    let resolvers = vec![a.clone(), b.clone()];
    let mut cfg = config();
    cfg.query_tld = false;
    let warm = names(&["w1", "w2"]);
    let tasks = build_tasks(&resolvers, &warm, &names(&["c1"]), &names(&[]), &cfg);
    let mut rng = RngSource::from_seed(cfg.seed).generator().unwrap();
    let mut run = BenchmarkRun::new(tasks, cfg.rounds);
    loop {
        let round = match run.begin_round(&mut rng) {
            Some(round) => round,
            None => break,
        };
        let outcomes = round
            .into_iter()
            .map(|t| {
                let latency = if t.resolver.port == 5301 { 10_000 } else { 70_000 };
                success(t, latency)
            })
            .collect();
        run.end_round(outcomes);
    }
    let tallies = aggregate(&run.completed);
    assert_eq!(tallies.len(), 2);
    let ranked = benchmark_results(&resolvers, &run.completed, &cfg);
    assert_eq!(ranked.len(), 2);
    assert_eq!(ranked[0].stats.label, "A");
    assert_eq!(ranked[0].stats.addr, "127.0.0.1");
    assert_eq!(ranked[0].stats.port, 5301);
    assert_eq!(ranked[0].stats.warm.p50_us, 10_000);
    assert_eq!(ranked[1].stats.label, "B");
    assert_eq!(ranked[1].stats.addr, "127.0.0.1");
    assert_eq!(ranked[1].stats.port, 5302);
    assert_eq!(ranked[1].stats.warm.p50_us, 70_000);
    for r in &ranked {
        assert_eq!(r.stats.warm.total_count, cfg.rounds as usize * warm.len());
        assert_eq!(r.stats.cold.total_count, cfg.rounds as usize);
        assert_eq!(r.stats.success_rate_bp, 10_000);
    }
}

#[test]
fn an_address_listed_twice_is_one_resolver() {
    let first = resolver_at("first", "127.0.0.1", 53);
    let again = resolver_at("again", "127.0.0.1", 53);
    let outcomes = vec![
        success(task(&first, "w1", DomainSet::Warm), 10_000),
        success(task(&again, "w1", DomainSet::Warm), 30_000),
    ];
    let ranked = benchmark_results(&vec![first, again], &outcomes, &config());
    assert_eq!(ranked.len(), 1);
    assert_eq!(ranked[0].stats.label, "first");
    assert_eq!(ranked[0].stats.warm.total_count, 2);
}

#[test]
fn probe_verdicts_are_written_into_the_resolvers() {
    let mut resolvers = vec![resolver("a", "192.0.2.1"), resolver("b", "192.0.2.2"), resolver("c", "192.0.2.3")];
    resolvers[2].intercepts_nxdomain = true;
    let reports = vec![
        ProbeReport { index: 1, intercepts: true },
        ProbeReport { index: 7, intercepts: true },
        ProbeReport { index: 0, intercepts: true },
        ProbeReport { index: 0, intercepts: false },
    ];
    let results = apply_characterization(&mut resolvers, &reports);
    assert!(!resolvers[0].intercepts_nxdomain);
    assert!(resolvers[1].intercepts_nxdomain);
    // no report: the flag stays
    assert!(resolvers[2].intercepts_nxdomain);
    assert_eq!(results.len(), 3);
    assert_eq!(results[0].label, "b");
    assert_eq!(results[0].ip, "192.0.2.2");
    assert_eq!(results[0].port, 53);
    assert!(results[0].intercepts_nxdomain && results[0].reachable);
    assert_eq!(results[1].label, "a");
    assert!(results[1].intercepts_nxdomain);
    assert_eq!(results[2].label, "a");
    assert!(!results[2].intercepts_nxdomain);
    assert_eq!(resolvers[0].label, "a");
}

#[test]
fn options_become_a_configuration() {
    let cli = Cli {
        resolvers: vec![],
        resolver_file: None,
        warm_domains: None,
        cold_domains: None,
        nxdomain_domains: None,
        tld_domains: None,
        no_tld: false,
        rounds: 3,
        timeout: 2000,
        concurrency: 64,
        spacing: 5,
        aaaa: false,
        dnssec: true,
        discover: false,
        top: 50,
        no_discover: false,
        max_resolver_ms: 1000,
        output: None,
        seed: Some(9),
        system_resolvers: false,
    };
    let cfg = cli.benchmark_config(4);
    assert_eq!(
        cfg,
        BenchmarkConfig {
            rounds: 3,
            timeout_us: 2_000_000,
            max_inflight: 64,
            inter_query_spacing_us: 5_000,
            query_aaaa: false,
            seed: Some(9),
            dnssec: true,
            query_tld: true,
            discover: false,
            top_n: 50,
            max_resolver_us: 1_000_000,
        }
    );
    // large lists switch discovery on, unless it is switched off
    assert!(!cli.benchmark_config(20).discover);
    assert!(cli.benchmark_config(21).discover);
    let off = Cli { no_discover: true, discover: true, no_tld: true, ..cli };
    assert!(!off.benchmark_config(500).discover);
    assert!(!off.benchmark_config(500).query_tld);
    let asked = Cli { no_discover: false, discover: true, timeout: u64::MAX, spacing: u64::MAX, ..off };
    assert!(asked.benchmark_config(1).discover);
    assert_eq!(asked.benchmark_config(1).timeout_us, u32::MAX);
    assert_eq!(asked.benchmark_config(1).inter_query_spacing_us, u64::MAX);
    assert_eq!(millis_to_micros(4_294_967), 4_294_967_000);
    assert_eq!(millis_to_micros(4_294_968), u32::MAX);
    assert_eq!(millis_to_micros(0), 0);
}

#[test]
fn a_prepared_probe_carries_its_transaction_id() {
    match prepare_probe() {
        PreparedProbe::Ready(probe) => {
            assert_eq!(probe.bytes, dns_benchmark::dns::probe_query(probe.txid).unwrap());
            assert_eq!(probe.bytes[0], (probe.txid >> 8) as u8);
            assert_eq!(probe.bytes[1], (probe.txid & 0xff) as u8);
        }
        other => panic!("no probe: {:?}", other),
    }
}

#[test]
fn transaction_ids_vary() {
    let t = task(&resolver("one", "192.0.2.1"), "example.com", DomainSet::Warm);
    let mut seen = std::collections::HashSet::new();
    for _ in 0..64 {
        match prepare_task(&t, false, 1_000).unwrap() {
            PreparedQuery::Ready { exchange, .. } => {
                seen.insert(exchange.txid);
            }
            PreparedQuery::Failed(result) => panic!("not prepared: {:?}", result),
        }
    }
    assert!(seen.len() > 1);
}
