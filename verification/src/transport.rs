//! Plain data shared by every stage of a benchmark run.
//!
//! Durations are whole microseconds, held in `u32`: a little over 71
//! minutes, far beyond any sensible DNS timeout, and narrow enough that
//! sums of squares over a whole sample stay inside `u128`.

use vstd::prelude::*;

verus! {

/// Address family of a resolver.
#[derive(Debug, Clone, Copy, PartialEq, Eq, Structural)]
pub enum IpFamily {
    V4,
    V6,
}

/// The identity of a resolver: its IP address, as text, and its UDP port.
pub struct Address {
    pub ip: Seq<char>,
    pub port: u16,
}

/// Configuration for a single DNS resolver.
///
/// A resolver is known by its address: IP and port together. Two
/// resolvers on one IP and different ports are two resolvers.
#[derive(Debug)]
pub struct ResolverConfig {
    /// Display name.
    pub label: String,
    /// Textual IP address, without port.
    pub ip: String,
    /// UDP port.
    pub port: u16,
    /// Address family of `ip`.
    pub family: IpFamily,
    /// Whether the resolver intercepts NXDOMAIN (set during characterization).
    pub intercepts_nxdomain: bool,
}

impl ResolverConfig {
    /// The resolver's identity.
    pub open spec fn address(self) -> Address {
        Address { ip: self.ip@, port: self.port }
    }
}

impl Clone for ResolverConfig {
    fn clone(&self) -> (r: Self)
        ensures
            r == *self,
    {
        ResolverConfig {
            label: self.label.clone(),
            ip: self.ip.clone(),
            port: self.port,
            family: self.family,
            intercepts_nxdomain: self.intercepts_nxdomain,
        }
    }
}

/// DNS query type.
#[derive(Debug, Clone, Copy, PartialEq, Eq, Structural)]
pub enum QueryType {
    A,
    AAAA,
}

/// Result of a single DNS query.
#[derive(Debug)]
pub struct QueryResult {
    /// Textual IP address of the resolver that was asked.
    pub resolver: String,
    /// UDP port of the resolver that was asked.
    pub port: u16,
    pub domain: String,
    pub query_type: QueryType,
    /// Human-readable response code, when a matching response arrived.
    pub rcode: Option<String>,
    /// Elapsed time in microseconds.
    pub latency_us: u32,
    /// True iff a matching response arrived and its code was NOERROR.
    pub success: bool,
    /// True iff no matching response arrived in time.
    pub timeout: bool,
}

impl QueryResult {
    /// The identity of the resolver that was asked.
    pub open spec fn address(self) -> Address {
        Address { ip: self.resolver@, port: self.port }
    }
}

impl Clone for QueryResult {
    fn clone(&self) -> (r: Self)
        ensures
            r == *self,
    {
        let rcode = match &self.rcode {
            Some(s) => Some(s.clone()),
            None => None,
        };
        QueryResult {
            resolver: self.resolver.clone(),
            port: self.port,
            domain: self.domain.clone(),
            query_type: self.query_type,
            rcode,
            latency_us: self.latency_us,
            success: self.success,
            timeout: self.timeout,
        }
    }
}

/// Benchmark configuration.
#[derive(Debug, Clone, Copy, PartialEq, Eq, Structural)]
pub struct BenchmarkConfig {
    pub rounds: u32,
    /// Per-query deadline in microseconds.
    pub timeout_us: u32,
    pub max_inflight: usize,
    /// Delay before each query, after admission, in microseconds.
    pub inter_query_spacing_us: u64,
    pub query_aaaa: bool,
    pub seed: Option<u64>,
    /// Enable DNSSEC (DO bit) on all queries.
    pub dnssec: bool,
    /// Enable TLD diversity measurement.
    pub query_tld: bool,
    /// Enable discovery prefilter mode.
    pub discover: bool,
    /// Number of top resolvers to keep in discovery mode.
    pub top_n: usize,
    /// Maximum warm median latency in microseconds; resolvers above this
    /// are dropped from results.
    pub max_resolver_us: u32,
}

/// Result of NXDOMAIN characterization for a single resolver.
#[derive(Debug)]
pub struct CharacterizationResult {
    pub label: String,
    /// Textual IP address.
    pub ip: String,
    pub port: u16,
    pub intercepts_nxdomain: bool,
    pub reachable: bool,
}

} // verus!
