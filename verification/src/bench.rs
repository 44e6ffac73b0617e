//! Task lists and rounds.
//!
//! A benchmark asks every resolver for every domain of every enabled set,
//! once per query type, in each of several rounds. Each round runs the
//! same tasks in a fresh random order. A round's tasks are handed out
//! only when the round before it has been handed back, so rounds never
//! overlap.

use crate::dns::{build_query, query_bytes, QueryError};
use crate::exchange::QueryExchange;
use crate::transport::{BenchmarkConfig, QueryResult, QueryType, ResolverConfig};
use rand::rngs::StdRng;
use rand::seq::SliceRandom;
use rand::RngCore;
use rand::SeedableRng;
use vstd::prelude::*;

verus! {

/// The named set that a domain belongs to.
#[derive(Debug, Clone, Copy, PartialEq, Eq, Structural)]
pub enum DomainSet {
    Warm,
    Cold,
    Tld,
}

impl DomainSet {
    /// The set's tag.
    pub fn name(&self) -> (r: &'static str)
        ensures
            r@ == match *self {
                DomainSet::Warm => "warm"@,
                DomainSet::Cold => "cold"@,
                DomainSet::Tld => "tld"@,
            },
    {
        match self {
            DomainSet::Warm => "warm",
            DomainSet::Cold => "cold",
            DomainSet::Tld => "tld",
        }
    }
}

/// A single query task: resolver + domain + query type + set membership.
#[derive(Debug)]
pub struct QueryTask {
    pub resolver: ResolverConfig,
    pub domain: String,
    pub query_type: QueryType,
    pub set: DomainSet,
}

impl Clone for QueryTask {
    fn clone(&self) -> (r: Self)
        ensures
            r == *self,
    {
        QueryTask {
            resolver: self.resolver.clone(),
            domain: self.domain.clone(),
            query_type: self.query_type,
            set: self.set,
        }
    }
}

/// A task together with the outcome of executing it.
#[derive(Debug)]
pub struct CompletedQuery {
    pub task: QueryTask,
    pub result: QueryResult,
}

/// The query types of a benchmark: A, and AAAA where it is asked for.
pub open spec fn query_types_for(query_aaaa: bool) -> Seq<QueryType> {
    if query_aaaa {
        seq![QueryType::A, QueryType::AAAA]
    } else {
        seq![QueryType::A]
    }
}

/// The tasks for one domain: one per query type.
pub open spec fn domain_tasks(
    resolver: ResolverConfig,
    domain: String,
    set: DomainSet,
    types: Seq<QueryType>,
) -> Seq<QueryTask> {
    Seq::new(types.len(), |k: int| QueryTask { resolver, domain, query_type: types[k], set })
}

/// The tasks for one set: those of its domains, in order.
pub open spec fn set_tasks(
    resolver: ResolverConfig,
    domains: Seq<String>,
    set: DomainSet,
    types: Seq<QueryType>,
) -> Seq<QueryTask>
    decreases domains.len(),
{
    if domains.len() == 0 {
        Seq::empty()
    } else {
        set_tasks(resolver, domains.drop_last(), set, types) + domain_tasks(
            resolver,
            domains.last(),
            set,
            types,
        )
    }
}

/// The tasks for one resolver: warm, then cold, then TLD where enabled.
pub open spec fn resolver_tasks(
    resolver: ResolverConfig,
    warm: Seq<String>,
    cold: Seq<String>,
    tld: Seq<String>,
    query_tld: bool,
    types: Seq<QueryType>,
) -> Seq<QueryTask> {
    set_tasks(resolver, warm, DomainSet::Warm, types) + set_tasks(
        resolver,
        cold,
        DomainSet::Cold,
        types,
    ) + if query_tld {
        set_tasks(resolver, tld, DomainSet::Tld, types)
    } else {
        Seq::empty()
    }
}

/// The full task list: the tasks of each resolver, in order.
pub open spec fn all_tasks(
    resolvers: Seq<ResolverConfig>,
    warm: Seq<String>,
    cold: Seq<String>,
    tld: Seq<String>,
    query_tld: bool,
    types: Seq<QueryType>,
) -> Seq<QueryTask>
    decreases resolvers.len(),
{
    if resolvers.len() == 0 {
        Seq::empty()
    } else {
        all_tasks(resolvers.drop_last(), warm, cold, tld, query_tld, types) + resolver_tasks(
            resolvers.last(),
            warm,
            cold,
            tld,
            query_tld,
            types,
        )
    }
}

/// The task that asks one resolver for one domain with one query type.
pub open spec fn task_for(
    resolver: ResolverConfig,
    domains: Seq<String>,
    set: DomainSet,
    types: Seq<QueryType>,
    d: int,
    q: int,
) -> QueryTask {
    QueryTask { resolver, domain: domains[d], query_type: types[q], set }
}

/// How many tasks one resolver has: one per domain of each enabled set
/// and query type.
pub open spec fn tasks_per_resolver(
    warm: Seq<String>,
    cold: Seq<String>,
    tld: Seq<String>,
    query_tld: bool,
    types: Seq<QueryType>,
) -> int {
    (warm.len() + cold.len() + if query_tld {
        tld.len() as int
    } else {
        0
    }) * types.len() as int
}

/// The tasks of a set are its domains times the query types: there are
/// `domains * types` of them, and the task for domain `d` and type `q`
/// stands at `d * types + q`. So no pair is left out and none stands
/// twice.
pub proof fn set_tasks_are_the_product(
    resolver: ResolverConfig,
    domains: Seq<String>,
    set: DomainSet,
    types: Seq<QueryType>,
)
    ensures
        set_tasks(resolver, domains, set, types).len() == domains.len() * types.len(),
        forall|d: int, q: int|
            0 <= d < domains.len() && 0 <= q < types.len() ==> 0 <= d * types.len() + q < set_tasks(
                resolver,
                domains,
                set,
                types,
            ).len() && set_tasks(resolver, domains, set, types)[d * types.len() + q] == #[trigger] task_for(
                resolver,
                domains,
                set,
                types,
                d,
                q,
            ),
    decreases domains.len(),
{
    let t = types.len() as int;
    let n = domains.len() as int;
    if n == 0 {
        assert(n * t == 0) by (nonlinear_arith)
            requires
                n == 0,
        ;
    } else {
        let shorter = domains.drop_last();
        let first = set_tasks(resolver, shorter, set, types);
        let last = domain_tasks(resolver, domains.last(), set, types);
        set_tasks_are_the_product(resolver, shorter, set, types);
        assert((n - 1) * t + t == n * t) by (nonlinear_arith);
        assert forall|d: int, q: int| 0 <= d < n && 0 <= q < t implies 0 <= d * t + q < n * t && (first
            + last)[d * t + q] == #[trigger] task_for(resolver, domains, set, types, d, q) by {
            assert(0 <= d * t + q < n * t) by (nonlinear_arith)
                requires
                    0 <= d < n,
                    0 <= q < t,
            ;
            if d < n - 1 {
                assert(d * t + q < (n - 1) * t) by (nonlinear_arith)
                    requires
                        0 <= d < n - 1,
                        0 <= q < t,
                ;
                assert(first[d * t + q] == task_for(resolver, shorter, set, types, d, q));
                assert(shorter[d] == domains[d]);
            } else {
                assert(d * t + q - (n - 1) * t == q) by (nonlinear_arith)
                    requires
                        d == n - 1,
                ;
                assert((first + last)[d * t + q] == last[q]);
            }
        }
    }
}

/// Every resolver has the same number of tasks, and the task list holds
/// that many for each resolver.
pub proof fn all_tasks_count(
    resolvers: Seq<ResolverConfig>,
    warm: Seq<String>,
    cold: Seq<String>,
    tld: Seq<String>,
    query_tld: bool,
    types: Seq<QueryType>,
)
    ensures
        all_tasks(resolvers, warm, cold, tld, query_tld, types).len() == resolvers.len()
            * tasks_per_resolver(warm, cold, tld, query_tld, types),
        forall|i: int|
            0 <= i < resolvers.len() ==> (#[trigger] resolver_tasks(
                resolvers[i],
                warm,
                cold,
                tld,
                query_tld,
                types,
            )).len() == tasks_per_resolver(warm, cold, tld, query_tld, types),
    decreases resolvers.len(),
{
    let per = tasks_per_resolver(warm, cold, tld, query_tld, types);
    let t = types.len() as int;
    assert forall|i: int| 0 <= i < resolvers.len() implies (#[trigger] resolver_tasks(
        resolvers[i],
        warm,
        cold,
        tld,
        query_tld,
        types,
    )).len() == per by {
        set_tasks_are_the_product(resolvers[i], warm, DomainSet::Warm, types);
        set_tasks_are_the_product(resolvers[i], cold, DomainSet::Cold, types);
        set_tasks_are_the_product(resolvers[i], tld, DomainSet::Tld, types);
        let w = warm.len() as int;
        let c = cold.len() as int;
        let l = tld.len() as int;
        assert((w + c + l) * t == w * t + c * t + l * t) by (nonlinear_arith);
        assert((w + c + 0) * t == w * t + c * t) by (nonlinear_arith);
    }
    let n = resolvers.len() as int;
    if n == 0 {
        assert(n * per == 0) by (nonlinear_arith)
            requires
                n == 0,
        ;
    } else {
        all_tasks_count(resolvers.drop_last(), warm, cold, tld, query_tld, types);
        assert(resolvers.last() == resolvers[n - 1]);
        assert((n - 1) * per + per == n * per) by (nonlinear_arith);
    }
}

/// The query types to use.
pub fn query_types(query_aaaa: bool) -> (r: Vec<QueryType>)
    ensures
        r@ == query_types_for(query_aaaa),
{
    let mut types: Vec<QueryType> = Vec::new();
    types.push(QueryType::A);
    if query_aaaa {
        types.push(QueryType::AAAA);
    }
    assert(types@ =~= query_types_for(query_aaaa));
    types
}

fn push_domain_tasks(
    tasks: &mut Vec<QueryTask>,
    resolver: &ResolverConfig,
    domain: &String,
    set: DomainSet,
    types: &Vec<QueryType>,
)
    ensures
        final(tasks)@ == old(tasks)@ + domain_tasks(*resolver, *domain, set, types@),
{
    let ghost before = tasks@;
    let mut k: usize = 0;
    while k < types.len()
        invariant
            k <= types@.len(),
            tasks@ == before + domain_tasks(*resolver, *domain, set, types@).take(k as int),
        decreases types@.len() - k,
    {
        let task = QueryTask {
            resolver: resolver.clone(),
            domain: domain.clone(),
            query_type: types[k],
            set,
        };
        tasks.push(task);
        assert(tasks@ =~= before + domain_tasks(*resolver, *domain, set, types@).take(k + 1));
        k += 1;
    }
    assert(domain_tasks(*resolver, *domain, set, types@).take(types@.len() as int) =~= domain_tasks(
        *resolver,
        *domain,
        set,
        types@,
    ));
}

fn push_set_tasks(
    tasks: &mut Vec<QueryTask>,
    resolver: &ResolverConfig,
    domains: &Vec<String>,
    set: DomainSet,
    types: &Vec<QueryType>,
)
    ensures
        final(tasks)@ == old(tasks)@ + set_tasks(*resolver, domains@, set, types@),
{
    let ghost before = tasks@;
    let mut d: usize = 0;
    assert(tasks@ =~= before + set_tasks(*resolver, domains@.take(0), set, types@));
    while d < domains.len()
        invariant
            d <= domains@.len(),
            tasks@ == before + set_tasks(*resolver, domains@.take(d as int), set, types@),
        decreases domains@.len() - d,
    {
        push_domain_tasks(tasks, resolver, &domains[d], set, types);
        proof {
            assert(domains@.take(d + 1).drop_last() == domains@.take(d as int));
            assert(tasks@ =~= before + set_tasks(*resolver, domains@.take(d + 1), set, types@));
        }
        d += 1;
    }
    assert(domains@.take(domains@.len() as int) == domains@);
}

/// The cross-product of resolvers, domains and query types, resolver by
/// resolver: its warm tasks, its cold tasks, and its TLD tasks when
/// `query_tld` is on.
pub fn cross_product(
    resolvers: &Vec<ResolverConfig>,
    warm_domains: &Vec<String>,
    cold_domains: &Vec<String>,
    tld_domains: &Vec<String>,
    query_tld: bool,
    types: &Vec<QueryType>,
) -> (tasks: Vec<QueryTask>)
    ensures
        tasks@ == all_tasks(
            resolvers@,
            warm_domains@,
            cold_domains@,
            tld_domains@,
            query_tld,
            types@,
        ),
{
    let mut tasks: Vec<QueryTask> = Vec::new();
    let mut i: usize = 0;
    assert(tasks@ =~= all_tasks(
        resolvers@.take(0),
        warm_domains@,
        cold_domains@,
        tld_domains@,
        query_tld,
        types@,
    ));
    while i < resolvers.len()
        invariant
            i <= resolvers@.len(),
            tasks@ == all_tasks(
                resolvers@.take(i as int),
                warm_domains@,
                cold_domains@,
                tld_domains@,
                query_tld,
                types@,
            ),
        decreases resolvers@.len() - i,
    {
        let ghost before = tasks@;
        let resolver = &resolvers[i];
        push_set_tasks(&mut tasks, resolver, warm_domains, DomainSet::Warm, types);
        push_set_tasks(&mut tasks, resolver, cold_domains, DomainSet::Cold, types);
        if query_tld {
            push_set_tasks(&mut tasks, resolver, tld_domains, DomainSet::Tld, types);
        }
        proof {
            assert(resolvers@.take(i + 1).drop_last() == resolvers@.take(i as int));
            assert(tasks@ =~= before + resolver_tasks(
                resolvers@[i as int],
                warm_domains@,
                cold_domains@,
                tld_domains@,
                query_tld,
                types@,
            ));
        }
        i += 1;
    }
    assert(resolvers@.take(resolvers@.len() as int) == resolvers@);
    tasks
}

/// Build the full task list of a benchmark: the cross-product of
/// resolvers, the domains of the warm and cold sets (and of the TLD set
/// when `config.query_tld` is on), and the query types.
pub fn build_tasks(
    resolvers: &Vec<ResolverConfig>,
    warm_domains: &Vec<String>,
    cold_domains: &Vec<String>,
    tld_domains: &Vec<String>,
    config: &BenchmarkConfig,
) -> (tasks: Vec<QueryTask>)
    ensures
        tasks@ == all_tasks(
            resolvers@,
            warm_domains@,
            cold_domains@,
            tld_domains@,
            config.query_tld,
            query_types_for(config.query_aaaa),
        ),
{
    let types = query_types(config.query_aaaa);
    cross_product(resolvers, warm_domains, cold_domains, tld_domains, config.query_tld, &types)
}

/// A copy of a task list.
pub fn clone_tasks(tasks: &Vec<QueryTask>) -> (r: Vec<QueryTask>)
    ensures
        r@ == tasks@,
{
    let mut out: Vec<QueryTask> = Vec::new();
    let mut i: usize = 0;
    while i < tasks.len()
        invariant
            i <= tasks@.len(),
            out@ == tasks@.take(i as int),
        decreases tasks@.len() - i,
    {
        out.push(tasks[i].clone());
        assert(out@ =~= tasks@.take(i + 1));
        i += 1;
    }
    assert(tasks@.take(tasks@.len() as int) == tasks@);
    out
}

/// The standard generator of `rand`, `rand::rngs::StdRng`: opaque here.
#[verifier::external_type_specification]
#[verifier::external_body]
pub struct ExStdRng(rand::rngs::StdRng);

/// Where the randomness of a run comes from.
#[derive(Debug, Clone, Copy, PartialEq, Eq, Structural)]
pub enum RngSource {
    /// A fixed seed: the run can be repeated.
    Seeded(u64),
    /// The system's entropy.
    Entropy,
}

/// A generator with a fixed seed.
///
/// Calls `StdRng::seed_from_u64`. Nothing is claimed of the generator.
#[verifier::external_body]
fn seeded_rng(seed: u64) -> StdRng {
    StdRng::seed_from_u64(seed)
}

/// A generator seeded from the system's entropy.
///
/// Calls `StdRng::from_rng` over `rand::rngs::OsRng`. There is no
/// generator where the system yields no entropy; nothing is claimed of
/// the generator where there is one.
#[verifier::external_body]
fn entropy_rng() -> Option<StdRng> {
    StdRng::from_rng(rand::rngs::OsRng).ok()
}

/// Shuffle a task list in place.
///
/// Calls `SliceRandom::shuffle`, which swaps elements of the slice. The
/// contract says what holds whatever the generator yields: the tasks are
/// the same, each as often as before.
#[verifier::external_body]
fn shuffle_tasks(tasks: &mut Vec<QueryTask>, rng: &mut StdRng)
    ensures
        final(tasks)@.to_multiset() == old(tasks)@.to_multiset(),
{
    tasks.shuffle(rng);
}

/// A fresh transaction id.
///
/// Calls `RngCore::try_fill_bytes` on `rand::rngs::OsRng` for two bytes.
/// There is no id where the system yields no entropy; nothing is claimed
/// of the value where there is one.
#[verifier::external_body]
pub(crate) fn random_txid() -> Option<u16> {
    let mut bytes = [0u8; 2];
    rand::rngs::OsRng.try_fill_bytes(&mut bytes).ok()?;
    Some(u16::from_be_bytes(bytes))
}

impl RngSource {
    /// The source that a configured seed selects.
    pub fn from_seed(seed: Option<u64>) -> (r: Self)
        ensures
            r == match seed {
                Some(s) => RngSource::Seeded(s),
                None => RngSource::Entropy,
            },
    {
        match seed {
            Some(s) => RngSource::Seeded(s),
            None => RngSource::Entropy,
        }
    }

    /// The generator of a run, made once and threaded through its rounds.
    /// A seed always gives one; the system's entropy may fail to.
    pub fn generator(&self) -> (r: Option<StdRng>)
        ensures
            *self is Seeded ==> r is Some,
    {
        match self {
            RngSource::Seeded(seed) => Some(seeded_rng(*seed)),
            RngSource::Entropy => entropy_rng(),
        }
    }
}

/// The tasks of one round: a shuffled copy of the task list.
pub fn shuffled_round(tasks: &Vec<QueryTask>, rng: &mut StdRng) -> (r: Vec<QueryTask>)
    ensures
        r@.to_multiset() == tasks@.to_multiset(),
{
    let mut round = clone_tasks(tasks);
    shuffle_tasks(&mut round, rng);
    round
}

/// A task made ready for the wire.
#[derive(Debug)]
pub enum PreparedQuery {
    /// The query to send and the exchange that judges what comes back.
    Ready { bytes: Vec<u8>, exchange: QueryExchange },
    /// The query could not be built; the task ends with this outcome.
    Failed(QueryResult),
}

/// The outcome of a task whose query could not be encoded: neither a
/// success nor a timeout, with no latency.
pub open spec fn encoding_failure(task: QueryTask) -> QueryResult {
    QueryResult {
        resolver: task.resolver.ip,
        port: task.resolver.port,
        domain: task.domain,
        query_type: task.query_type,
        rcode: None,
        latency_us: 0,
        success: false,
        timeout: false,
    }
}

/// Whether `prepared` is what `task` becomes with the given transaction
/// id.
pub open spec fn is_prepared(
    task: QueryTask,
    txid: u16,
    dnssec: bool,
    timeout_us: u32,
    prepared: PreparedQuery,
) -> bool {
    match prepared {
        PreparedQuery::Ready { bytes, exchange } => {
            &&& query_bytes(task.domain@, task.query_type, txid, dnssec) == Ok::<Seq<u8>, QueryError>(bytes@)
            &&& exchange.resolver@ == task.resolver.ip@
            &&& exchange.port == task.resolver.port
            &&& exchange.domain@ == task.domain@
            &&& exchange.query_type == task.query_type
            &&& exchange.txid == txid
            &&& exchange.timeout_us == timeout_us
            &&& exchange.attempts == 0
        },
        PreparedQuery::Failed(result) => {
            &&& query_bytes(task.domain@, task.query_type, txid, dnssec) is Err
            &&& result == encoding_failure(task)
        },
    }
}

/// Build the query of a task under a given transaction id. A name that
/// cannot be encoded does not stop the round: the task ends at once with
/// a non-success, non-timeout outcome.
pub fn prepare_task_with_txid(
    task: &QueryTask,
    txid: u16,
    dnssec: bool,
    timeout_us: u32,
) -> (r: PreparedQuery)
    ensures
        is_prepared(*task, txid, dnssec, timeout_us, r),
{
    match build_query(task.domain.as_str(), task.query_type, txid, dnssec) {
        Ok(bytes) => {
            let exchange = QueryExchange::new(
                task.resolver.ip.as_str(),
                task.resolver.port,
                task.domain.as_str(),
                task.query_type,
                txid,
                timeout_us,
            );
            PreparedQuery::Ready { bytes, exchange }
        },
        Err(_) => PreparedQuery::Failed(
            QueryResult {
                resolver: task.resolver.ip.clone(),
                port: task.resolver.port,
                domain: task.domain.clone(),
                query_type: task.query_type,
                rcode: None,
                latency_us: 0,
                success: false,
                timeout: false,
            },
        ),
    }
}

/// Build the query of a task under a fresh random transaction id.
///
/// Without an id the task cannot run at all: there is nothing to send and
/// no outcome to record, and the round goes on without it.
pub fn prepare_task(task: &QueryTask, dnssec: bool, timeout_us: u32) -> (r: Option<PreparedQuery>)
    ensures
        r matches Some(prepared) ==> exists|txid: u16| is_prepared(*task, txid, dnssec, timeout_us, prepared),
{
    match random_txid() {
        Some(txid) => Some(prepare_task_with_txid(task, txid, dnssec, timeout_us)),
        None => None,
    }
}

/// The rounds of one benchmark run.
#[derive(Debug)]
pub struct BenchmarkRun {
    /// The task list; every round runs all of it.
    pub tasks: Vec<QueryTask>,
    /// How many rounds to run.
    pub rounds: u32,
    /// How many rounds have been handed back.
    pub rounds_done: u32,
    /// Whether a round has been handed out and not yet handed back.
    pub in_flight: bool,
    /// The outcomes of all rounds so far, in the order they were handed
    /// back.
    pub completed: Vec<CompletedQuery>,
}

impl BenchmarkRun {
    /// Whether the next round may be handed out: none is in flight and
    /// rounds are left.
    pub open spec fn may_begin(self) -> bool {
        !self.in_flight && self.rounds_done < self.rounds
    }

    /// Whether all rounds have been handed back.
    pub open spec fn finished(self) -> bool {
        !self.in_flight && self.rounds_done >= self.rounds
    }

    /// A run that has not started.
    pub fn new(tasks: Vec<QueryTask>, rounds: u32) -> (r: Self)
        ensures
            r.tasks == tasks,
            r.rounds == rounds,
            r.rounds_done == 0,
            !r.in_flight,
            r.completed@.len() == 0,
    {
        BenchmarkRun { tasks, rounds, rounds_done: 0, in_flight: false, completed: Vec::new() }
    }

    /// Hand out the next round: a shuffled copy of the task list. Nothing
    /// is handed out while a round is in flight or when no round is left.
    pub fn begin_round(&mut self, rng: &mut StdRng) -> (r: Option<Vec<QueryTask>>)
        ensures
            old(self).may_begin() ==> {
                &&& r matches Some(round)
                &&& round@.to_multiset() == old(self).tasks@.to_multiset()
                &&& *final(self) == BenchmarkRun { in_flight: true, ..*old(self) }
            },
            !old(self).may_begin() ==> r is None && *final(self) == *old(self),
    {
        if self.in_flight || self.rounds_done >= self.rounds {
            return None;
        }
        let round = shuffled_round(&self.tasks, rng);
        self.in_flight = true;
        Some(round)
    }

    /// Hand back the round in flight with the outcomes of its tasks. Tasks
    /// whose execution failed altogether are simply absent. Without a
    /// round in flight nothing changes.
    pub fn end_round(&mut self, outcomes: Vec<CompletedQuery>)
        ensures
            final(self).tasks == old(self).tasks,
            final(self).rounds == old(self).rounds,
            !final(self).in_flight,
            old(self).in_flight ==> {
                &&& final(self).completed@ == old(self).completed@ + outcomes@
                &&& final(self).rounds_done == if old(self).rounds_done < u32::MAX {
                    old(self).rounds_done + 1
                } else {
                    old(self).rounds_done as int
                }
            },
            !old(self).in_flight ==> *final(self) == *old(self),
    {
        if !self.in_flight {
            return ;
        }
        let mut outcomes = outcomes;
        self.completed.append(&mut outcomes);
        if self.rounds_done < u32::MAX {
            self.rounds_done = self.rounds_done + 1;
        }
        self.in_flight = false;
    }

    /// Whether every round has been handed back.
    pub fn is_finished(&self) -> (r: bool)
        ensures
            r == self.finished(),
    {
        !self.in_flight && self.rounds_done >= self.rounds
    }
}

/// While a round is in flight no other round is handed out, and handing
/// it back is what lets the next one begin.
pub proof fn rounds_do_not_overlap(run: BenchmarkRun)
    ensures
        run.in_flight ==> !run.may_begin(),
        run.may_begin() ==> !(BenchmarkRun { in_flight: true, ..run }).may_begin(),
{
}

} // verus!
