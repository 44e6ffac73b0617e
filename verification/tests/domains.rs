use dns_benchmark::domains::{
    default_cold_domains, default_nxdomain_domains, default_tld_domains, default_warm_domains,
};

#[test]
fn test_warm_domains_size() {
    let warm = default_warm_domains();
    assert!(!warm.is_empty());
    assert_eq!(warm.len(), 10);
}

#[test]
fn test_cold_domains_size() {
    let cold = default_cold_domains();
    assert!(!cold.is_empty());
    assert_eq!(cold.len(), 50);
}

#[test]
fn test_cold_domains_are_real() {
    // Verify none of the cold domains use fake/test prefixes
    let cold = default_cold_domains();
    for domain in &cold {
        assert!(!domain.starts_with("bench-dns-cold-"), "fake domain found: {}", domain);
        assert!(!domain.starts_with("test-cold-cache-"), "fake domain found: {}", domain);
        assert!(!domain.starts_with("resolver-perf-test-"), "fake domain found: {}", domain);
        assert!(!domain.starts_with("zzz-test-domain-"), "fake domain found: {}", domain);
    }
}

#[test]
fn test_nxdomain_domains_size() {
    let nx = default_nxdomain_domains();
    assert!(!nx.is_empty());
    assert_eq!(nx.len(), 10);
}

#[test]
fn test_nxdomain_domains_are_invalid_tld() {
    // All NXDOMAIN test domains should use .invalid TLD
    let nx = default_nxdomain_domains();
    for domain in &nx {
        assert!(domain.ends_with(".invalid"), "expected .invalid TLD: {}", domain);
    }
}

#[test]
fn test_tld_domains_size() {
    let tld = default_tld_domains();
    assert!(!tld.is_empty());
    assert!(tld.len() >= 30, "expected at least 30 TLD domains, got {}", tld.len());
}

#[test]
fn test_tld_domains_diverse_tlds() {
    // Check that we have diverse TLDs (not all the same)
    let tld = default_tld_domains();
    let mut tlds: Vec<String> = tld
        .iter()
        .filter_map(|d| d.rsplit('.').next().map(String::from))
        .collect();
    tlds.sort();
    tlds.dedup();
    assert!(tlds.len() >= 15, "expected at least 15 unique TLDs, got {}", tlds.len());
}

#[test]
fn warm_domains_start_with_the_most_popular() {
    let warm = default_warm_domains();
    assert_eq!(warm[0], "google.com");
    assert_eq!(warm[9], "apple.com");
}
