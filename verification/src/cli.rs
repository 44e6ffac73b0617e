//! Command-line options and the configuration they stand for.

use crate::transport::BenchmarkConfig;
use vstd::prelude::*;

verus! {

/// More resolvers than this switch the discovery prefilter on by itself.
pub const AUTO_DISCOVER_ABOVE: usize = 20;

/// DNS resolver benchmark tool: the options of one invocation.
#[derive(Debug)]
pub struct Cli {
    /// DNS resolver address (repeatable, e.g. 1.1.1.1 or 1.1.1.1:53)
    pub resolvers: Vec<String>,
    /// File containing resolver addresses (one per line)
    pub resolver_file: Option<String>,
    /// File containing warm (cached) domains to query
    pub warm_domains: Option<String>,
    /// File containing cold (uncached) domains to query
    pub cold_domains: Option<String>,
    /// File containing NXDOMAIN test domains for interception detection
    pub nxdomain_domains: Option<String>,
    /// File containing TLD-diverse domains to query
    pub tld_domains: Option<String>,
    /// Disable TLD diversity measurement
    pub no_tld: bool,
    /// Number of benchmark rounds
    pub rounds: u32,
    /// Query timeout in milliseconds
    pub timeout: u64,
    /// Maximum concurrent in-flight queries
    pub concurrency: usize,
    /// Inter-query spacing in milliseconds
    pub spacing: u64,
    /// Also query AAAA records
    pub aaaa: bool,
    /// Enable DNSSEC (set DO bit on all queries)
    pub dnssec: bool,
    /// Enable discovery mode to prefilter a large resolver list
    pub discover: bool,
    /// Number of top resolvers to keep in discovery mode
    pub top: usize,
    /// Disable auto-discovery (benchmark all resolvers without prefiltering)
    pub no_discover: bool,
    /// Maximum resolver latency in ms; drop resolvers slower than this from results
    pub max_resolver_ms: u64,
    /// Output CSV file path
    pub output: Option<String>,
    /// Random seed for reproducible results
    pub seed: Option<u64>,
    /// Include system resolvers from /etc/resolv.conf
    pub system_resolvers: bool,
}

/// Milliseconds as microseconds, held at the largest `u32`.
pub open spec fn clamped_micros(ms: u64) -> u32 {
    if ms * 1000 <= u32::MAX {
        (ms * 1000) as u32
    } else {
        u32::MAX
    }
}

/// Milliseconds as microseconds, held at the largest `u64`.
pub open spec fn saturated_micros(ms: u64) -> u64 {
    if ms * 1000 <= u64::MAX {
        (ms * 1000) as u64
    } else {
        u64::MAX
    }
}

/// Convert a duration in milliseconds to the microseconds that the
/// engine counts in. Durations beyond the engine's range are held at its
/// limit.
pub fn millis_to_micros(ms: u64) -> (r: u32)
    ensures
        r == clamped_micros(ms),
{
    if ms <= 4_294_967 {
        (ms * 1000) as u32
    } else {
        u32::MAX
    }
}

/// Whether the discovery prefilter runs: never when it is switched off,
/// otherwise when it is asked for or the resolver list is large.
pub open spec fn discovery_enabled(discover: bool, no_discover: bool, resolver_count: usize) -> bool {
    !no_discover && (discover || resolver_count > AUTO_DISCOVER_ABOVE)
}

impl Cli {
    /// The configuration that the options stand for, given how many
    /// resolvers were collected.
    pub open spec fn config_for(self, resolver_count: usize) -> BenchmarkConfig {
        BenchmarkConfig {
            rounds: self.rounds,
            timeout_us: clamped_micros(self.timeout),
            max_inflight: self.concurrency,
            inter_query_spacing_us: saturated_micros(self.spacing),
            query_aaaa: self.aaaa,
            seed: self.seed,
            dnssec: self.dnssec,
            query_tld: !self.no_tld,
            discover: discovery_enabled(self.discover, self.no_discover, resolver_count),
            top_n: self.top,
            max_resolver_us: clamped_micros(self.max_resolver_ms),
        }
    }

    /// Build the benchmark configuration.
    pub fn benchmark_config(&self, resolver_count: usize) -> (r: BenchmarkConfig)
        ensures
            r == self.config_for(resolver_count),
    {
        let discover = if self.no_discover {
            false
        } else {
            self.discover || resolver_count > AUTO_DISCOVER_ABOVE
        };
        let spacing = if self.spacing <= u64::MAX / 1000 {
            self.spacing * 1000
        } else {
            u64::MAX
        };
        BenchmarkConfig {
            rounds: self.rounds,
            timeout_us: millis_to_micros(self.timeout),
            max_inflight: self.concurrency,
            inter_query_spacing_us: spacing,
            query_aaaa: self.aaaa,
            seed: self.seed,
            dnssec: self.dnssec,
            query_tld: !self.no_tld,
            discover,
            top_n: self.top,
            max_resolver_us: millis_to_micros(self.max_resolver_ms),
        }
    }
}

} // verus!
