//! From outcomes to the ranked result.
//!
//! After the last round the outcomes are grouped, each resolver's sets are
//! summarized, the resolvers are ranked by overall score and neighbours
//! whose scores cannot be told apart are marked as tied.

use crate::aggregate::{
    aggregate, is_aggregation, lemma_tally_bounds, resolvers_seen, ResolverTally, SetTally,
};
use crate::bench::{CompletedQuery, DomainSet};
use crate::stats::{
    compute_set_stats, compute_uncertainty, detect_ties, is_ranked_by, is_stable_order,
    overall_score, overall_scores, rank_with_order, success_rate_bp, success_share, summarizes,
    ties_detected, uncertainty_of, ResolverStats, ScoredResolver, SetStats,
};
use crate::transport::{Address, BenchmarkConfig, ResolverConfig};
use vstd::prelude::*;

verus! {

/// The configured resolver with the given address. A list that names an
/// address more than once names one resolver; its first entry counts.
pub open spec fn configured(resolvers: Seq<ResolverConfig>, address: Address) -> Option<ResolverConfig>
    decreases resolvers.len(),
{
    if resolvers.len() == 0 {
        None
    } else if resolvers[0].address() == address {
        Some(resolvers[0])
    } else {
        configured(resolvers.drop_first(), address)
    }
}

/// Position of the configured resolver with the given address.
fn find_resolver(resolvers: &Vec<ResolverConfig>, ip: &String, port: u16) -> (r: Option<usize>)
    ensures
        match r {
            Some(k) => k < resolvers@.len() && configured(resolvers@, Address { ip: ip@, port }) == Some(
                resolvers@[k as int],
            ),
            None => configured(resolvers@, Address { ip: ip@, port }) is None,
        },
{
    let ghost address = Address { ip: ip@, port };
    let mut i: usize = 0;
    assert(resolvers@.skip(0) == resolvers@);
    while i < resolvers.len()
        invariant
            i <= resolvers@.len(),
            address == (Address { ip: ip@, port }),
            configured(resolvers@, address) == configured(resolvers@.skip(i as int), address),
        decreases resolvers@.len() - i,
    {
        proof {
            assert(resolvers@.skip(i as int).drop_first() == resolvers@.skip(i + 1));
            assert(resolvers@.skip(i as int)[0] == resolvers@[i as int]);
        }
        if resolvers[i].port == port && resolvers[i].ip == *ip {
            return Some(i);
        }
        i += 1;
    }
    None
}

impl SetTally {
    /// Whether the counts are consistent and small enough to summarize.
    pub open spec fn wf(self) -> bool {
        &&& self.latencies@.len() <= u32::MAX
        &&& self.success <= self.total
        &&& self.timeout <= self.total
        &&& self.total <= u32::MAX
    }

    /// Whether `stats` summarizes this tally.
    pub open spec fn summarized_by(self, stats: SetStats, penalty: u32) -> bool {
        summarizes(stats, self.latencies@, self.success, self.timeout, self.total, penalty)
    }

    /// The statistics of the tally.
    pub fn summarize(&self, timeout_penalty_us: u32) -> (r: SetStats)
        requires
            self.wf(),
        ensures
            self.summarized_by(r, timeout_penalty_us),
    {
        compute_set_stats(
            self.latencies.as_slice(),
            self.success,
            self.timeout,
            self.total,
            timeout_penalty_us,
        )
    }
}

impl ResolverTally {
    /// Whether every set's counts are consistent.
    pub open spec fn wf(self) -> bool {
        self.warm.wf() && self.cold.wf() && self.tld.wf()
    }

    /// The sample that a resolver's uncertainty is taken from: its warm
    /// latencies followed by its cold ones.
    pub open spec fn combined_latencies(self) -> Seq<u32> {
        self.warm.latencies@ + self.cold.latencies@
    }

    /// The successful queries over all sets.
    pub open spec fn successes(self) -> int {
        self.warm.success + self.cold.success + self.tld.success
    }

    /// The queries over all sets.
    pub open spec fn queries(self) -> int {
        self.warm.total + self.cold.total + self.tld.total
    }
}

/// Whether `stats` is the profile of the resolver that `tally` belongs to.
///
/// Label and interception flag come from the configured resolver with the
/// tally's address; without one the IP text is the label. The TLD
/// statistics are present only when TLD measurement is on and at least one
/// TLD query ran. The overall score is the mean of the warm and cold
/// scores; the TLD set never contributes to it.
pub open spec fn is_profile(
    stats: ResolverStats,
    tally: ResolverTally,
    resolvers: Seq<ResolverConfig>,
    config: BenchmarkConfig,
) -> bool {
    &&& stats.addr@ == tally.resolver@
    &&& stats.port == tally.port
    &&& stats.label@ == match configured(resolvers, tally.address()) {
        Some(r) => r.label@,
        None => tally.resolver@,
    }
    &&& stats.intercepts_nxdomain == match configured(resolvers, tally.address()) {
        Some(r) => r.intercepts_nxdomain,
        None => false,
    }
    &&& tally.warm.summarized_by(stats.warm, config.timeout_us)
    &&& tally.cold.summarized_by(stats.cold, config.timeout_us)
    &&& if config.query_tld && tally.tld.total > 0 {
        stats.tld matches Some(t) && tally.tld.summarized_by(t, config.timeout_us)
    } else {
        stats.tld is None
    }
    &&& stats.overall_score == (stats.warm.score + stats.cold.score) / 2
    &&& stats.success_rate_bp == success_share(tally.successes(), tally.queries())
}

/// Build the profile of one resolver from its tally.
pub fn resolver_profile(
    tally: &ResolverTally,
    resolvers: &Vec<ResolverConfig>,
    config: &BenchmarkConfig,
) -> (r: ResolverStats)
    requires
        tally.wf(),
    ensures
        is_profile(r, *tally, resolvers@, *config),
{
    let warm = tally.warm.summarize(config.timeout_us);
    let cold = tally.cold.summarize(config.timeout_us);
    let tld = if config.query_tld && tally.tld.total > 0 {
        Some(tally.tld.summarize(config.timeout_us))
    } else {
        None
    };
    let overall = overall_score(&warm, &cold);
    let total: u64 = tally.warm.total as u64 + tally.cold.total as u64 + tally.tld.total as u64;
    let successes: u64 = tally.warm.success as u64 + tally.cold.success as u64 + tally.tld.success as u64;
    let rate = success_rate_bp(successes, total);
    let (label, intercepts) = match find_resolver(resolvers, &tally.resolver, tally.port) {
        Some(k) => (resolvers[k].label.clone(), resolvers[k].intercepts_nxdomain),
        None => (tally.resolver.clone(), false),
    };
    ResolverStats {
        label,
        addr: tally.resolver.clone(),
        port: tally.port,
        warm,
        cold,
        tld,
        overall_score: overall,
        success_rate_bp: rate,
        intercepts_nxdomain: intercepts,
    }
}

/// Whether `profiles` are the profiles of `tallies`, one for one.
pub open spec fn are_profiles(
    profiles: Seq<ResolverStats>,
    tallies: Seq<ResolverTally>,
    resolvers: Seq<ResolverConfig>,
    config: BenchmarkConfig,
) -> bool {
    &&& profiles.len() == tallies.len()
    &&& forall|k: int|
        0 <= k < profiles.len() ==> is_profile(#[trigger] profiles[k], tallies[k], resolvers, config)
}

/// Whether `uncertainties` hold, for each rank, the uncertainty of the
/// resolver that got it.
pub open spec fn are_uncertainties(
    uncertainties: Seq<u64>,
    tallies: Seq<ResolverTally>,
    order: Seq<usize>,
) -> bool {
    &&& uncertainties.len() == order.len()
    &&& forall|i: int|
        0 <= i < order.len() ==> (#[trigger] uncertainties[i]) == uncertainty_of(
            tallies[order[i] as int].combined_latencies(),
        )
}

/// Whether `ranked` is the result of a benchmark with the given outcomes:
/// the outcomes are grouped by resolver, every resolver seen gets its
/// profile, the profiles are ranked by overall score, and ties are
/// detected with each resolver's own uncertainty.
pub open spec fn is_benchmark_result(
    resolvers: Seq<ResolverConfig>,
    outcomes: Seq<CompletedQuery>,
    config: BenchmarkConfig,
    ranked: Seq<ScoredResolver>,
) -> bool {
    exists|
        tallies: Seq<ResolverTally>,
        profiles: Seq<ResolverStats>,
        order: Seq<usize>,
        untied: Seq<ScoredResolver>,
        uncertainties: Seq<u64>,
    |
        {
            &&& is_aggregation(outcomes, tallies)
            &&& are_profiles(profiles, tallies, resolvers, config)
            &&& is_stable_order(overall_scores(profiles), order)
            &&& is_ranked_by(profiles, order, untied)
            &&& are_uncertainties(uncertainties, tallies, order)
            &&& ties_detected(untied, uncertainties, ranked)
        }
}

/// The tallies of fewer than 2^32 outcomes are consistent.
pub(crate) proof fn lemma_aggregation_wf(outcomes: Seq<CompletedQuery>, tallies: Seq<ResolverTally>)
    requires
        is_aggregation(outcomes, tallies),
        outcomes.len() <= u32::MAX,
    ensures
        forall|k: int| 0 <= k < tallies.len() ==> (#[trigger] tallies[k]).wf(),
{
    assert forall|k: int| 0 <= k < tallies.len() implies (#[trigger] tallies[k]).wf() by {
        let address = resolvers_seen(outcomes)[k];
        lemma_tally_bounds(outcomes, address, DomainSet::Warm, tallies[k].warm);
        lemma_tally_bounds(outcomes, address, DomainSet::Cold, tallies[k].cold);
        lemma_tally_bounds(outcomes, address, DomainSet::Tld, tallies[k].tld);
    }
}

/// The sample of a resolver's uncertainty.
fn combined_sample(tally: &ResolverTally) -> (r: Vec<u32>)
    ensures
        r@ == tally.combined_latencies(),
{
    let mut out: Vec<u32> = Vec::new();
    let mut i: usize = 0;
    while i < tally.warm.latencies.len()
        invariant
            i <= tally.warm.latencies@.len(),
            out@ == tally.warm.latencies@.take(i as int),
        decreases tally.warm.latencies@.len() - i,
    {
        out.push(tally.warm.latencies[i]);
        assert(out@ =~= tally.warm.latencies@.take(i + 1));
        i += 1;
    }
    assert(tally.warm.latencies@.take(tally.warm.latencies@.len() as int) == tally.warm.latencies@);
    let mut j: usize = 0;
    while j < tally.cold.latencies.len()
        invariant
            j <= tally.cold.latencies@.len(),
            out@ == tally.warm.latencies@ + tally.cold.latencies@.take(j as int),
        decreases tally.cold.latencies@.len() - j,
    {
        out.push(tally.cold.latencies[j]);
        assert(out@ =~= tally.warm.latencies@ + tally.cold.latencies@.take(j + 1));
        j += 1;
    }
    assert(tally.cold.latencies@.take(tally.cold.latencies@.len() as int) == tally.cold.latencies@);
    out
}

/// Turn the outcomes of all rounds into the ranked result.
///
/// Resolvers appear in the result only if at least one outcome names
/// them. The number of outcomes must stay below 2^32.
pub fn benchmark_results(
    resolvers: &Vec<ResolverConfig>,
    outcomes: &Vec<CompletedQuery>,
    config: &BenchmarkConfig,
) -> (ranked: Vec<ScoredResolver>)
    requires
        outcomes@.len() <= u32::MAX,
    ensures
        is_benchmark_result(resolvers@, outcomes@, *config, ranked@),
{
    let tallies = aggregate(outcomes);
    proof {
        lemma_aggregation_wf(outcomes@, tallies@);
    }
    let mut profiles: Vec<ResolverStats> = Vec::new();
    let mut k: usize = 0;
    while k < tallies.len()
        invariant
            k <= tallies@.len(),
            forall|j: int| 0 <= j < tallies@.len() ==> (#[trigger] tallies@[j]).wf(),
            are_profiles(profiles@, tallies@.take(k as int), resolvers@, *config),
        decreases tallies@.len() - k,
    {
        let profile = resolver_profile(&tallies[k], resolvers, config);
        profiles.push(profile);
        k += 1;
    }
    assert(tallies@.take(tallies@.len() as int) == tallies@);
    let (mut ranked, order) = rank_with_order(&profiles);
    let ghost untied = ranked@;
    let mut uncertainties: Vec<u64> = Vec::new();
    let mut i: usize = 0;
    while i < order.len()
        invariant
            i <= order@.len(),
            order@.len() == tallies@.len(),
            forall|j: int| 0 <= j < order@.len() ==> (#[trigger] order@[j]) < tallies@.len(),
            are_uncertainties(uncertainties@, tallies@, order@.take(i as int)),
        decreases order@.len() - i,
    {
        let sample = combined_sample(&tallies[order[i]]);
        uncertainties.push(compute_uncertainty(sample.as_slice()));
        i += 1;
    }
    assert(order@.take(order@.len() as int) == order@);
    detect_ties(&mut ranked, uncertainties.as_slice());
    proof {
        assert(is_aggregation(outcomes@, tallies@));
        assert(are_profiles(profiles@, tallies@, resolvers@, *config));
        assert(is_stable_order(overall_scores(profiles@), order@));
        assert(is_ranked_by(profiles@, order@, untied));
        assert(are_uncertainties(uncertainties@, tallies@, order@));
        assert(ties_detected(untied, uncertainties@, ranked@));
    }
    ranked
}

/// The stats of the resolvers that stay under a latency cut-off: those
/// whose warm median is at most `max_resolver_us`, in order.
pub open spec fn within_cutoff(max_resolver_us: u32) -> spec_fn(ScoredResolver) -> bool {
    |r: ScoredResolver| r.stats.warm.p50_us <= max_resolver_us
}

/// Whether `kept` is `ranked` without the resolvers above the cut-off,
/// numbered anew from 1 and without tie groups.
pub open spec fn is_cutoff_of(ranked: Seq<ScoredResolver>, max_resolver_us: u32, kept: Seq<ScoredResolver>) -> bool {
    let passing = ranked.filter(within_cutoff(max_resolver_us));
    &&& kept.len() == passing.len()
    &&& forall|i: int|
        0 <= i < kept.len() ==> {
            &&& (#[trigger] kept[i]).stats == passing[i].stats
            &&& kept[i].rank == i + 1
            &&& kept[i].tie_group is None
        }
}

/// Drop the resolvers whose warm median latency is above the threshold
/// and rank the rest anew: ranks run from 1 and tie groups are cleared.
pub fn drop_slow_resolvers(
    ranked: &Vec<ScoredResolver>,
    max_resolver_us: u32,
) -> (kept: Vec<ScoredResolver>)
    ensures
        is_cutoff_of(ranked@, max_resolver_us, kept@),
{
    let mut kept: Vec<ScoredResolver> = Vec::new();
    let mut i: usize = 0;
    proof {
        reveal(Seq::filter);
        assert(ranked@.take(0).len() == 0);
    }
    while i < ranked.len()
        invariant
            i <= ranked@.len(),
            kept@.len() <= i,
            is_cutoff_of(ranked@.take(i as int), max_resolver_us, kept@),
        decreases ranked@.len() - i,
    {
        proof {
            crate::aggregate::lemma_filter_step(ranked@, within_cutoff(max_resolver_us), i as int);
        }
        if ranked[i].stats.warm.p50_us <= max_resolver_us {
            let rank = kept.len() + 1;
            kept.push(ScoredResolver { rank, stats: ranked[i].stats.clone(), tie_group: None });
        }
        i += 1;
    }
    assert(ranked@.take(ranked@.len() as int) == ranked@);
    kept
}

} // verus!
