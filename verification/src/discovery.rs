//! Discovery prefilter: from many candidates to the few worth measuring.
//!
//! Phase one asks every candidate once, with a short deadline, and keeps
//! those that answer. Phase two runs only when more survive than are
//! wanted: it asks each survivor for every warm domain, gives each its
//! warm composite score, timeouts included, and keeps the best.

use crate::aggregate::{
    aggregate, concerning, find_tally, is_aggregation, latencies_of, lemma_filter_step,
    lemma_unseen_selects_nothing, resolvers_seen, succeeded_for, timed_out_for, ResolverTally,
};
use crate::bench::{all_tasks, cross_product, CompletedQuery, DomainSet, QueryTask};
use crate::results::lemma_aggregation_wf;
use crate::stats::{
    composite_score, compute_set_stats, is_stable_order, lemma_stable_order_covers,
    percentile_value, sorted_sample, stable_order,
};
use crate::transport::{Address, QueryType, ResolverConfig};
use vstd::pervasive::VecAdditionalExecFns;
use vstd::prelude::*;

verus! {

/// Deadline of a screening query, in microseconds.
pub const SCREEN_TIMEOUT_US: u32 = 500_000;

/// Domain that the screen asks for when no warm domain is configured.
pub const FALLBACK_SCREEN_DOMAIN: &'static str = "google.com";

/// The domain that the screen asks for: the first warm domain.
pub fn screen_domain(warm_domains: &Vec<String>) -> (r: String)
    ensures
        r@ == if warm_domains@.len() > 0 {
            warm_domains@[0]@
        } else {
            FALLBACK_SCREEN_DOMAIN@
        },
{
    if warm_domains.len() > 0 {
        warm_domains[0].clone()
    } else {
        FALLBACK_SCREEN_DOMAIN.to_owned()
    }
}

/// The tasks of the reachability screen: one A query per candidate, all
/// for the same domain.
pub fn screen_tasks(
    candidates: &Vec<ResolverConfig>,
    warm_domains: &Vec<String>,
) -> (tasks: Vec<QueryTask>)
    ensures
        tasks@.len() == candidates@.len(),
        forall|i: int|
            0 <= i < tasks@.len() ==> {
                &&& (#[trigger] tasks@[i]).resolver == candidates@[i]
                &&& tasks@[i].query_type == QueryType::A
                &&& tasks@[i].domain@ == if warm_domains@.len() > 0 {
                    warm_domains@[0]@
                } else {
                    FALLBACK_SCREEN_DOMAIN@
                }
            },
{
    let domain = screen_domain(warm_domains);
    let mut tasks: Vec<QueryTask> = Vec::new();
    let mut i: usize = 0;
    while i < candidates.len()
        invariant
            i <= candidates@.len(),
            tasks@.len() == i,
            forall|k: int|
                0 <= k < i ==> {
                    &&& (#[trigger] tasks@[k]).resolver == candidates@[k]
                    &&& tasks@[k].query_type == QueryType::A
                    &&& tasks@[k].domain@ == domain@
                },
        decreases candidates@.len() - i,
    {
        tasks.push(
            QueryTask {
                resolver: candidates[i].clone(),
                domain: domain.clone(),
                query_type: QueryType::A,
                set: crate::bench::DomainSet::Warm,
            },
        );
        i += 1;
    }
    tasks
}

/// Selects the outcomes that succeeded.
pub open spec fn succeeded() -> spec_fn(CompletedQuery) -> bool {
    |o: CompletedQuery| o.result.success
}

/// The resolver that an outcome's task was for.
pub open spec fn resolver_of() -> spec_fn(CompletedQuery) -> ResolverConfig {
    |o: CompletedQuery| o.task.resolver
}

/// The candidates that pass the screen: the resolvers of the successful
/// outcomes, in order.
pub open spec fn reachable(screened: Seq<CompletedQuery>) -> Seq<ResolverConfig> {
    screened.filter(succeeded()).map_values(resolver_of())
}

/// Keep the candidates whose screening query succeeded. The others are
/// unreachable and dropped.
pub fn reachable_resolvers(screened: &Vec<CompletedQuery>) -> (survivors: Vec<ResolverConfig>)
    ensures
        survivors@ == reachable(screened@),
{
    let mut survivors: Vec<ResolverConfig> = Vec::new();
    let mut i: usize = 0;
    proof {
        reveal(Seq::filter);
        assert(survivors@ =~= reachable(screened@.take(0)));
    }
    while i < screened.len()
        invariant
            i <= screened@.len(),
            survivors@ == reachable(screened@.take(i as int)),
        decreases screened@.len() - i,
    {
        proof {
            lemma_filter_step(screened@, succeeded(), i as int);
        }
        if screened[i].result.success {
            survivors.push(screened[i].task.resolver.clone());
        }
        assert(survivors@ =~= reachable(screened@.take(i + 1)));
        i += 1;
    }
    assert(screened@.take(screened@.len() as int) == screened@);
    survivors
}

/// Whether the survivors must be ranked: only when there are more of them
/// than are wanted. Otherwise all of them are kept as they are.
pub fn ranking_needed(survivors: &Vec<ResolverConfig>, top_n: usize) -> (r: bool)
    ensures
        r == (survivors@.len() > top_n),
{
    survivors.len() > top_n
}

/// The tasks of the quick ranking: one A query per survivor and warm
/// domain.
pub fn ranking_tasks(
    survivors: &Vec<ResolverConfig>,
    warm_domains: &Vec<String>,
) -> (tasks: Vec<QueryTask>)
    ensures
        tasks@ == all_tasks(
            survivors@,
            warm_domains@,
            Seq::empty(),
            Seq::empty(),
            false,
            seq![QueryType::A],
        ),
{
    let none: Vec<String> = Vec::new();
    let mut types: Vec<QueryType> = Vec::new();
    types.push(QueryType::A);
    assert(types@ =~= seq![QueryType::A]);
    assert(none@ =~= Seq::empty());
    cross_product(survivors, warm_domains, &none, &none, false, &types)
}

/// The warm composite score of the resolver at `address`: the median of
/// its successful warm latencies, half the spread to their 95th
/// percentile, and the timeout penalty times the share of its warm
/// queries that timed out. A resolver without a success has no latency
/// to show and scores its timeouts alone.
pub open spec fn warm_score(outcomes: Seq<CompletedQuery>, address: Address, penalty: u32) -> int {
    let latencies = latencies_of(outcomes, address, DomainSet::Warm);
    composite_score(
        if latencies.len() == 0 {
            0
        } else {
            percentile_value(sorted_sample(latencies), 50) as int
        },
        if latencies.len() == 0 {
            0
        } else {
            percentile_value(sorted_sample(latencies), 95) as int
        },
        outcomes.filter(timed_out_for(address, DomainSet::Warm)).len() as int,
        outcomes.filter(concerning(address, DomainSet::Warm)).len() as int,
        penalty as int,
    )
}

/// The warm score is the score of the statistics engine over the
/// resolver's warm outcomes: whatever summarizes its warm latencies,
/// timeouts and total carries it as its score.
pub proof fn warm_score_is_the_set_score(
    outcomes: Seq<CompletedQuery>,
    address: Address,
    penalty: u32,
    stats: crate::stats::SetStats,
)
    requires
        crate::stats::summarizes(
            stats,
            latencies_of(outcomes, address, DomainSet::Warm),
            outcomes.filter(succeeded_for(address, DomainSet::Warm)).len() as usize,
            outcomes.filter(timed_out_for(address, DomainSet::Warm)).len() as usize,
            outcomes.filter(concerning(address, DomainSet::Warm)).len() as usize,
            penalty,
        ),
        outcomes.len() <= usize::MAX,
    ensures
        stats.score == warm_score(outcomes, address, penalty),
{
    outcomes.lemma_filter_len(succeeded_for(address, DomainSet::Warm));
    outcomes.lemma_filter_len(timed_out_for(address, DomainSet::Warm));
    outcomes.lemma_filter_len(concerning(address, DomainSet::Warm));
}

/// The warm composite score of the survivor at position `i`.
pub open spec fn survivor_score(
    survivors: Seq<ResolverConfig>,
    outcomes: Seq<CompletedQuery>,
    penalty: u32,
    i: int,
) -> int {
    warm_score(outcomes, survivors[i].address(), penalty)
}

/// Whether the survivor at `a` ranks before the one at `b`: by lower
/// score, and among equal scores by coming first.
pub open spec fn ranks_before(
    survivors: Seq<ResolverConfig>,
    outcomes: Seq<CompletedQuery>,
    penalty: u32,
    a: int,
    b: int,
) -> bool {
    let score_a = survivor_score(survivors, outcomes, penalty, a);
    let score_b = survivor_score(survivors, outcomes, penalty, b);
    score_a < score_b || (score_a == score_b && a < b)
}

/// How many survivors are kept: `top_n`, or all where there are fewer.
pub open spec fn kept_count(survivors: Seq<ResolverConfig>, top_n: usize) -> int {
    if top_n < survivors.len() {
        top_n as int
    } else {
        survivors.len() as int
    }
}

/// Whether `kept` is the choice of the quick ranking, taken from the
/// positions `picks`: the kept are survivors in their own order, there
/// are `top_n` of them (or all, where there are fewer), and every kept
/// survivor ranks before every dropped one.
pub open spec fn is_top_choice(
    survivors: Seq<ResolverConfig>,
    outcomes: Seq<CompletedQuery>,
    top_n: usize,
    penalty: u32,
    picks: Seq<int>,
    kept: Seq<ResolverConfig>,
) -> bool {
    &&& picks.len() == kept_count(survivors, top_n)
    &&& kept.len() == picks.len()
    &&& forall|j: int|
        0 <= j < picks.len() ==> 0 <= #[trigger] picks[j] < survivors.len() && kept[j] == survivors[picks[j]]
    &&& forall|j: int, k: int| 0 <= j < k < picks.len() ==> #[trigger] picks[j] < #[trigger] picks[k]
    &&& forall|j: int, d: int|
        0 <= j < picks.len() && 0 <= d < survivors.len() && !picks.contains(d) ==> #[trigger] ranks_before(
            survivors,
            outcomes,
            penalty,
            picks[j],
            d,
        )
}

/// No dropped survivor has a lower score than a kept one.
pub proof fn dropped_survivors_score_no_better(
    survivors: Seq<ResolverConfig>,
    outcomes: Seq<CompletedQuery>,
    top_n: usize,
    penalty: u32,
    picks: Seq<int>,
    kept: Seq<ResolverConfig>,
    j: int,
    d: int,
)
    requires
        is_top_choice(survivors, outcomes, top_n, penalty, picks, kept),
        0 <= j < kept.len(),
        0 <= d < survivors.len(),
        !picks.contains(d),
    ensures
        kept[j] == survivors[picks[j]],
        survivor_score(survivors, outcomes, penalty, picks[j]) <= survivor_score(
            survivors,
            outcomes,
            penalty,
            d,
        ),
{
    assert(ranks_before(survivors, outcomes, penalty, picks[j], d));
}

/// How many marks are set.
pub open spec fn marked(marks: Seq<bool>) -> nat
    decreases marks.len(),
{
    if marks.len() == 0 {
        0
    } else {
        marked(marks.drop_last()) + if marks.last() {
            1nat
        } else {
            0nat
        }
    }
}

proof fn lemma_marked_one_more(marks: Seq<bool>, k: int)
    requires
        0 <= k < marks.len(),
        !marks[k],
    ensures
        marked(marks.update(k, true)) == marked(marks) + 1,
    decreases marks.len(),
{
    let after = marks.update(k, true);
    if k == marks.len() - 1 {
        assert(after.drop_last() =~= marks.drop_last());
    } else {
        assert(after.drop_last() =~= marks.drop_last().update(k, true));
        lemma_marked_one_more(marks.drop_last(), k);
    }
}

/// The warm composite score of one survivor.
fn score_survivor(
    survivor: &ResolverConfig,
    tallies: &Vec<ResolverTally>,
    timeout_us: u32,
    Ghost(outcomes): Ghost<Seq<CompletedQuery>>,
) -> (score: u64)
    requires
        is_aggregation(outcomes, tallies@),
        forall|j: int| 0 <= j < tallies@.len() ==> (#[trigger] tallies@[j]).wf(),
    ensures
        score == warm_score(outcomes, survivor.address(), timeout_us),
{
    let ghost address = survivor.address();
    let ghost seen = resolvers_seen(outcomes);
    match find_tally(tallies, &survivor.ip, survivor.port) {
        Some(k) => {
            assert(tallies@[k as int].counts(outcomes, seen[k as int]));
            assert(seen[k as int] == address);
            let stats = tallies[k].warm.summarize(timeout_us);
            stats.score
        },
        None => {
            proof {
                if seen.contains(address) {
                    let w = choose|w: int| 0 <= w < seen.len() && seen[w] == address;
                    assert(tallies@[w].counts(outcomes, seen[w]));
                }
                lemma_unseen_selects_nothing(outcomes, address, concerning(address, DomainSet::Warm));
                lemma_unseen_selects_nothing(outcomes, address, succeeded_for(address, DomainSet::Warm));
                lemma_unseen_selects_nothing(outcomes, address, timed_out_for(address, DomainSet::Warm));
            }
            let nothing: Vec<u32> = Vec::new();
            let stats = compute_set_stats(nothing.as_slice(), 0, 0, 0, timeout_us);
            stats.score
        },
    }
}

/// Keep the best `top_n` survivors by warm composite score.
///
/// The outcomes are those of the ranking tasks. Each survivor is scored
/// over its own warm outcomes, timeouts included; none is dropped for
/// want of a success. The `top_n` lowest scores win, and among equal
/// scores the survivor that comes first. The kept survivors stay in the
/// order of the survivors. The number of outcomes must stay below 2^32.
pub fn keep_top(
    survivors: &Vec<ResolverConfig>,
    outcomes: &Vec<CompletedQuery>,
    top_n: usize,
    timeout_us: u32,
) -> (kept: Vec<ResolverConfig>)
    requires
        outcomes@.len() <= u32::MAX,
    ensures
        kept@.len() == kept_count(survivors@, top_n),
        exists|picks: Seq<int>| is_top_choice(survivors@, outcomes@, top_n, timeout_us, picks, kept@),
{
    let n = survivors.len();
    let tallies = aggregate(outcomes);
    proof {
        lemma_aggregation_wf(outcomes@, tallies@);
    }
    let mut scores: Vec<u64> = Vec::new();
    let mut marks: Vec<bool> = Vec::new();
    let mut i: usize = 0;
    while i < n
        invariant
            i <= n,
            n == survivors@.len(),
            is_aggregation(outcomes@, tallies@),
            forall|j: int| 0 <= j < tallies@.len() ==> (#[trigger] tallies@[j]).wf(),
            scores@.len() == i,
            marks@.len() == i,
            marked(marks@) == 0,
            forall|j: int| 0 <= j < i ==> !(#[trigger] marks@[j]),
            forall|j: int|
                0 <= j < i ==> (#[trigger] scores@[j]) == survivor_score(
                    survivors@,
                    outcomes@,
                    timeout_us,
                    j,
                ),
        decreases n - i,
    {
        let score = score_survivor(&survivors[i], &tallies, timeout_us, Ghost(outcomes@));
        scores.push(score);
        let ghost unmarked = marks@;
        marks.push(false);
        assert(marks@.drop_last() =~= unmarked);
        i += 1;
    }
    let order = stable_order(&scores);
    let count = if top_n < n {
        top_n
    } else {
        n
    };
    let mut a: usize = 0;
    while a < count
        invariant
            a <= count <= n,
            n == survivors@.len(),
            order@.len() == n,
            marks@.len() == n,
            is_stable_order(scores@, order@),
            scores@.len() == n,
            marked(marks@) == a,
            forall|d: int|
                0 <= d < n ==> ((#[trigger] marks@[d]) <==> exists|b: int|
                    0 <= b < a && order@[b] == d),
        decreases count - a,
    {
        let pick = order[a];
        let ghost before = marks@;
        proof {
            if before[pick as int] {
                let b = choose|b: int| 0 <= b < a && order@[b] == pick;
                assert(scores@[order@[b] as int] < scores@[order@[a as int] as int] || order@[b]
                    < order@[a as int]);
            }
            lemma_marked_one_more(before, pick as int);
        }
        marks.set(pick, true);
        proof {
            assert forall|d: int| 0 <= d < n implies ((#[trigger] marks@[d]) <==> exists|b: int|
                0 <= b < a + 1 && order@[b] == d) by {
                if d == pick {
                    assert(order@[a as int] == d);
                } else {
                    assert(marks@[d] == before[d]);
                    if before[d] {
                        let b = choose|b: int| 0 <= b < a && order@[b] == d;
                        assert(0 <= b < a + 1 && order@[b] == d);
                    }
                    if exists|b: int| 0 <= b < a + 1 && order@[b] == d {
                        let b = choose|b: int| 0 <= b < a + 1 && order@[b] == d;
                        assert(b != a);
                        assert(0 <= b < a && order@[b] == d);
                    }
                }
            }
        }
        a += 1;
    }
    let mut kept: Vec<ResolverConfig> = Vec::new();
    let ghost mut picks: Seq<int> = Seq::empty();
    let mut s: usize = 0;
    assert(marks@.take(0) =~= Seq::<bool>::empty());
    while s < n
        invariant
            s <= n,
            n == survivors@.len(),
            marks@.len() == n,
            kept@.len() == picks.len(),
            picks.len() == marked(marks@.take(s as int)),
            forall|j: int|
                0 <= j < picks.len() ==> 0 <= #[trigger] picks[j] < s && marks@[picks[j]] && kept@[j]
                    == survivors@[picks[j]],
            forall|j: int, k: int| 0 <= j < k < picks.len() ==> #[trigger] picks[j] < #[trigger] picks[k],
            forall|d: int| 0 <= d < s && marks@[d] ==> picks.contains(d),
        decreases n - s,
    {
        let ghost earlier = picks;
        proof {
            assert(marks@.take(s + 1).drop_last() =~= marks@.take(s as int));
            assert(marks@.take(s + 1).last() == marks@[s as int]);
        }
        if marks[s] {
            kept.push(survivors[s].clone());
            proof {
                picks = picks.push(s as int);
                assert(picks[earlier.len() as int] == s);
            }
        }
        proof {
            assert forall|d: int| 0 <= d < s + 1 && marks@[d] implies picks.contains(d) by {
                if d < s {
                    assert(earlier.contains(d));
                    let w = choose|w: int| 0 <= w < earlier.len() && earlier[w] == d;
                    assert(picks[w] == d);
                } else {
                    assert(picks[earlier.len() as int] == d);
                }
            }
        }
        s += 1;
    }
    proof {
        assert(marks@.take(n as int) =~= marks@);
        assert forall|j: int, d: int|
            0 <= j < picks.len() && 0 <= d < survivors@.len() && !picks.contains(d) implies #[trigger] ranks_before(
            survivors@,
            outcomes@,
            timeout_us,
            picks[j],
            d,
        ) by {
            let p = picks[j];
            assert(marks@[p]);
            let b = choose|b: int| 0 <= b < count && order@[b] == p;
            assert(!marks@[d]);
            lemma_stable_order_covers(scores@, order@, d);
            let c = choose|c: int| 0 <= c < order@.len() && order@[c] == d;
            assert(c >= count);
            assert(scores@[order@[b] as int] < scores@[order@[c] as int] || (scores@[order@[b] as int]
                == scores@[order@[c] as int] && order@[b] < order@[c]));
            assert(scores@[p] == survivor_score(survivors@, outcomes@, timeout_us, p));
            assert(scores@[d] == survivor_score(survivors@, outcomes@, timeout_us, d));
        }
        assert(is_top_choice(survivors@, outcomes@, top_n, timeout_us, picks, kept@));
    }
    kept
}

} // verus!
