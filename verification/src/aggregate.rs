//! Grouping of outcomes by resolver and by set.
//!
//! A resolver is known by the address that its outcomes carry: IP and
//! port together.
//! The resolvers appear in the order in which they are first seen among
//! the outcomes; within a resolver and a set, the latencies of the
//! successful queries appear in the order of the outcomes.

use crate::bench::{CompletedQuery, DomainSet};
use crate::transport::{Address, QueryResult};
use vstd::prelude::*;

verus! {

/// Selects the outcomes of one resolver in one set.
pub open spec fn concerning(address: Address, set: DomainSet) -> spec_fn(CompletedQuery) -> bool {
    |o: CompletedQuery| o.result.address() == address && o.task.set == set
}

/// Selects the successful outcomes of one resolver in one set.
pub open spec fn succeeded_for(address: Address, set: DomainSet) -> spec_fn(CompletedQuery) -> bool {
    |o: CompletedQuery| o.result.address() == address && o.task.set == set && o.result.success
}

/// Selects the timed-out outcomes of one resolver in one set.
pub open spec fn timed_out_for(address: Address, set: DomainSet) -> spec_fn(CompletedQuery) -> bool {
    |o: CompletedQuery| o.result.address() == address && o.task.set == set && o.result.timeout
}

/// The latency of an outcome.
pub open spec fn latency_of() -> spec_fn(CompletedQuery) -> u32 {
    |o: CompletedQuery| o.result.latency_us
}

/// The latencies of the successful queries of one resolver in one set.
pub open spec fn latencies_of(outcomes: Seq<CompletedQuery>, address: Address, set: DomainSet) -> Seq<
    u32,
> {
    outcomes.filter(succeeded_for(address, set)).map_values(latency_of())
}

/// The resolvers that occur among the outcomes, each once, in the order
/// of first occurrence.
pub open spec fn resolvers_seen(outcomes: Seq<CompletedQuery>) -> Seq<Address>
    decreases outcomes.len(),
{
    if outcomes.len() == 0 {
        Seq::empty()
    } else {
        let earlier = resolvers_seen(outcomes.drop_last());
        let address = outcomes.last().result.address();
        if earlier.contains(address) {
            earlier
        } else {
            earlier.push(address)
        }
    }
}

/// What was measured for one resolver in one set.
#[derive(Debug)]
pub struct SetTally {
    /// Latencies of the successful queries, in microseconds.
    pub latencies: Vec<u32>,
    pub success: usize,
    pub timeout: usize,
    pub total: usize,
}

/// What was measured for one resolver.
#[derive(Debug)]
pub struct ResolverTally {
    /// Textual IP address of the resolver.
    pub resolver: String,
    /// UDP port of the resolver.
    pub port: u16,
    pub warm: SetTally,
    pub cold: SetTally,
    pub tld: SetTally,
}

impl SetTally {
    /// Whether the tally holds what the outcomes say of one resolver in
    /// one set.
    pub open spec fn counts(self, outcomes: Seq<CompletedQuery>, address: Address, set: DomainSet) -> bool {
        &&& self.latencies@ == latencies_of(outcomes, address, set)
        &&& self.success == outcomes.filter(succeeded_for(address, set)).len()
        &&& self.timeout == outcomes.filter(timed_out_for(address, set)).len()
        &&& self.total == outcomes.filter(concerning(address, set)).len()
    }

    /// Whether `after` is the tally with one more outcome taken in.
    pub open spec fn bumped(self, result: QueryResult, after: SetTally) -> bool {
        &&& after.total == self.total + 1
        &&& after.success == self.success + if result.success {
            1int
        } else {
            0int
        }
        &&& after.timeout == self.timeout + if result.timeout {
            1int
        } else {
            0int
        }
        &&& after.latencies@ == if result.success {
            self.latencies@.push(result.latency_us)
        } else {
            self.latencies@
        }
    }

    fn new() -> (r: Self)
        ensures
            r.latencies@.len() == 0,
            r.success == 0,
            r.timeout == 0,
            r.total == 0,
    {
        SetTally { latencies: Vec::new(), success: 0, timeout: 0, total: 0 }
    }

    fn take_in(&mut self, result: &QueryResult)
        requires
            old(self).total < usize::MAX,
            old(self).success < usize::MAX,
            old(self).timeout < usize::MAX,
        ensures
            old(self).bumped(*result, *final(self)),
    {
        if result.success {
            self.latencies.push(result.latency_us);
            self.success += 1;
        }
        self.total += 1;
        if result.timeout {
            self.timeout += 1;
        }
    }
}

impl ResolverTally {
    /// The identity of the resolver that the tally belongs to.
    pub open spec fn address(self) -> Address {
        Address { ip: self.resolver@, port: self.port }
    }

    /// Whether the tally holds what the outcomes say of one resolver.
    pub open spec fn counts(self, outcomes: Seq<CompletedQuery>, address: Address) -> bool {
        &&& self.address() == address
        &&& self.warm.counts(outcomes, address, DomainSet::Warm)
        &&& self.cold.counts(outcomes, address, DomainSet::Cold)
        &&& self.tld.counts(outcomes, address, DomainSet::Tld)
    }
}

/// Whether the tallies are those of the outcomes: one per resolver seen,
/// in the order of first occurrence.
pub open spec fn is_aggregation(outcomes: Seq<CompletedQuery>, tallies: Seq<ResolverTally>) -> bool {
    &&& tallies.len() == resolvers_seen(outcomes).len()
    &&& forall|k: int|
        0 <= k < tallies.len() ==> (#[trigger] tallies[k]).counts(outcomes, resolvers_seen(outcomes)[k])
}

/// Filtering a prefix that is one longer either appends the new element
/// or changes nothing.
pub(crate) proof fn lemma_filter_step<A>(s: Seq<A>, pred: spec_fn(A) -> bool, k: int)
    requires
        0 <= k < s.len(),
    ensures
        s.take(k + 1).filter(pred) == if pred(s[k]) {
            s.take(k).filter(pred).push(s[k])
        } else {
            s.take(k).filter(pred)
        },
{
    reveal(Seq::filter);
    assert(s.take(k + 1).drop_last() == s.take(k));
}

/// A stronger selection selects no more.
pub(crate) proof fn lemma_filter_narrower<A>(s: Seq<A>, narrow: spec_fn(A) -> bool, wide: spec_fn(A) -> bool)
    requires
        forall|x: A| #[trigger] narrow(x) ==> wide(x),
    ensures
        s.filter(narrow).len() <= s.filter(wide).len(),
    decreases s.len(),
{
    reveal(Seq::filter);
    if s.len() > 0 {
        lemma_filter_narrower(s.drop_last(), narrow, wide);
    }
}

/// The resolvers seen hold every outcome's address, each address once,
/// and the ones seen earlier come first.
pub(crate) proof fn lemma_resolvers_seen(outcomes: Seq<CompletedQuery>)
    ensures
        resolvers_seen(outcomes).no_duplicates(),
        forall|j: int|
            0 <= j < outcomes.len() ==> resolvers_seen(outcomes).contains(
                (#[trigger] outcomes[j]).result.address(),
            ),
        outcomes.len() > 0 ==> resolvers_seen(outcomes.drop_last()).is_prefix_of(
            resolvers_seen(outcomes),
        ),
    decreases outcomes.len(),
{
    if outcomes.len() > 0 {
        let shorter = outcomes.drop_last();
        lemma_resolvers_seen(shorter);
        let earlier = resolvers_seen(shorter);
        let address = outcomes.last().result.address();
        let now = resolvers_seen(outcomes);
        if earlier.contains(address) {
            assert(now == earlier);
        } else {
            assert(now == earlier.push(address));
            assert(now[earlier.len() as int] == address);
        }
        assert forall|j: int| 0 <= j < outcomes.len() implies now.contains(
            (#[trigger] outcomes[j]).result.address(),
        ) by {
            if j < outcomes.len() - 1 {
                let a = shorter[j].result.address();
                assert(earlier.contains(a));
                let w = choose|w: int| 0 <= w < earlier.len() && earlier[w] == a;
                assert(now[w] == a);
            } else {
                if earlier.contains(address) {
                } else {
                    assert(now[earlier.len() as int] == address);
                }
            }
        }
    }
}

/// Nothing is selected for a resolver that was not seen.
pub(crate) proof fn lemma_unseen_selects_nothing(
    outcomes: Seq<CompletedQuery>,
    address: Address,
    pred: spec_fn(CompletedQuery) -> bool,
)
    requires
        !resolvers_seen(outcomes).contains(address),
        forall|o: CompletedQuery| #[trigger] pred(o) ==> o.result.address() == address,
    ensures
        outcomes.filter(pred).len() == 0,
    decreases outcomes.len(),
{
    reveal(Seq::filter);
    if outcomes.len() > 0 {
        let shorter = outcomes.drop_last();
        lemma_resolvers_seen(outcomes);
        let earlier = resolvers_seen(shorter);
        let now = resolvers_seen(outcomes);
        assert(outcomes[outcomes.len() - 1] == outcomes.last());
        assert(now.contains(outcomes.last().result.address()));
        if earlier.contains(address) {
            let w = choose|w: int| 0 <= w < earlier.len() && earlier[w] == address;
            assert(now[w] == address);
        }
        lemma_unseen_selects_nothing(shorter, address, pred);
    }
}

/// A tally stays right for one more outcome if that outcome is taken in
/// exactly where it concerns the tally's resolver and set.
pub(crate) proof fn lemma_tally_step(
    outcomes: Seq<CompletedQuery>,
    i: int,
    address: Address,
    set: DomainSet,
    before: SetTally,
    after: SetTally,
)
    requires
        0 <= i < outcomes.len(),
        before.counts(outcomes.take(i), address, set),
        if concerning(address, set)(outcomes[i]) {
            before.bumped(outcomes[i].result, after)
        } else {
            after.latencies@ == before.latencies@ && after.success == before.success
                && after.timeout == before.timeout && after.total == before.total
        },
    ensures
        after.counts(outcomes.take(i + 1), address, set),
{
    lemma_filter_step(outcomes, concerning(address, set), i);
    lemma_filter_step(outcomes, succeeded_for(address, set), i);
    lemma_filter_step(outcomes, timed_out_for(address, set), i);
    let o = outcomes[i];
    let kept = outcomes.take(i).filter(succeeded_for(address, set));
    if succeeded_for(address, set)(o) {
        assert(kept.push(o).map_values(latency_of()) =~= kept.map_values(latency_of()).push(
            o.result.latency_us,
        ));
    }
}

/// A tally of no outcomes is right for a resolver that was not seen.
pub(crate) proof fn lemma_tally_start(outcomes: Seq<CompletedQuery>, address: Address, set: DomainSet, t: SetTally)
    requires
        !resolvers_seen(outcomes).contains(address),
        t.latencies@.len() == 0,
        t.success == 0,
        t.timeout == 0,
        t.total == 0,
    ensures
        t.counts(outcomes, address, set),
{
    lemma_unseen_selects_nothing(outcomes, address, concerning(address, set));
    lemma_unseen_selects_nothing(outcomes, address, succeeded_for(address, set));
    lemma_unseen_selects_nothing(outcomes, address, timed_out_for(address, set));
    assert(t.latencies@ =~= latencies_of(outcomes, address, set));
}

/// A right tally never counts more than there are outcomes, nor more
/// successes or timeouts than queries.
pub(crate) proof fn lemma_tally_bounds(outcomes: Seq<CompletedQuery>, address: Address, set: DomainSet, t: SetTally)
    requires
        t.counts(outcomes, address, set),
    ensures
        t.total <= outcomes.len(),
        t.success <= t.total,
        t.timeout <= t.total,
        t.latencies@.len() == t.success,
{
    outcomes.lemma_filter_len(concerning(address, set));
    lemma_filter_narrower(outcomes, succeeded_for(address, set), concerning(address, set));
    lemma_filter_narrower(outcomes, timed_out_for(address, set), concerning(address, set));
}

/// Position of the tally of a resolver, if there is one.
pub(crate) fn find_tally(tallies: &Vec<ResolverTally>, ip: &String, port: u16) -> (r: Option<usize>)
    ensures
        match r {
            Some(k) => k < tallies@.len() && tallies@[k as int].address() == (Address { ip: ip@, port }),
            None => forall|k: int|
                0 <= k < tallies@.len() ==> (#[trigger] tallies@[k]).address() != (Address {
                    ip: ip@,
                    port,
                }),
        },
{
    let mut k: usize = 0;
    while k < tallies.len()
        invariant
            k <= tallies@.len(),
            forall|j: int|
                0 <= j < k ==> (#[trigger] tallies@[j]).address() != (Address { ip: ip@, port }),
        decreases tallies@.len() - k,
    {
        if tallies[k].port == port && tallies[k].resolver == *ip {
            return Some(k);
        }
        k += 1;
    }
    None
}

/// Group outcomes by resolver and by set.
///
/// The result holds one tally per resolver address that occurs among the
/// outcomes, in the order of first occurrence. Each tally counts, per
/// set, all queries, the successful ones and the timed-out ones, and
/// keeps the latencies of the successful ones.
pub fn aggregate(outcomes: &Vec<CompletedQuery>) -> (tallies: Vec<ResolverTally>)
    ensures
        is_aggregation(outcomes@, tallies@),
{
    let mut tallies: Vec<ResolverTally> = Vec::new();
    let mut i: usize = 0;
    while i < outcomes.len()
        invariant
            i <= outcomes@.len(),
            is_aggregation(outcomes@.take(i as int), tallies@),
        decreases outcomes@.len() - i,
    {
        let outcome = &outcomes[i];
        let ghost done = outcomes@.take(i as int);
        let ghost next = outcomes@.take(i + 1);
        let ghost seen = resolvers_seen(done);
        let ghost address = outcome.result.address();
        let ghost before = tallies@;
        proof {
            assert(next.drop_last() == done);
            assert(next.last() == outcomes@[i as int]);
            lemma_resolvers_seen(done);
            lemma_resolvers_seen(next);
        }
        let k = match find_tally(&tallies, &outcome.result.resolver, outcome.result.port) {
            Some(k) => {
                proof {
                    assert(seen[k as int] == address);
                    assert(seen.contains(address));
                }
                k
            },
            None => {
                proof {
                    if seen.contains(address) {
                        let w = choose|w: int| 0 <= w < seen.len() && seen[w] == address;
                        assert(tallies@[w].address() == seen[w]);
                    }
                }
                let fresh = ResolverTally {
                    resolver: outcome.result.resolver.clone(),
                    port: outcome.result.port,
                    warm: SetTally::new(),
                    cold: SetTally::new(),
                    tld: SetTally::new(),
                };
                proof {
                    lemma_tally_start(done, address, DomainSet::Warm, fresh.warm);
                    lemma_tally_start(done, address, DomainSet::Cold, fresh.cold);
                    lemma_tally_start(done, address, DomainSet::Tld, fresh.tld);
                }
                tallies.push(fresh);
                tallies.len() - 1
            },
        };
        let ghost grown = tallies@;
        let ghost now = resolvers_seen(next);
        proof {
            assert(grown.len() == now.len());
            assert(now[k as int] == address);
            assert forall|j: int| 0 <= j < grown.len() implies (#[trigger] grown[j]).counts(done, now[j]) by {
                if j < before.len() {
                    assert(grown[j] == before[j]);
                    assert(now[j] == seen[j]);
                }
            }
            lemma_tally_bounds(done, address, DomainSet::Warm, grown[k as int].warm);
            lemma_tally_bounds(done, address, DomainSet::Cold, grown[k as int].cold);
            lemma_tally_bounds(done, address, DomainSet::Tld, grown[k as int].tld);
        }
        match outcome.task.set {
            DomainSet::Warm => tallies[k].warm.take_in(&outcome.result),
            DomainSet::Cold => tallies[k].cold.take_in(&outcome.result),
            DomainSet::Tld => tallies[k].tld.take_in(&outcome.result),
        }
        proof {
            assert forall|j: int| 0 <= j < tallies@.len() implies (#[trigger] tallies@[j]).counts(next, now[j]) by {
                if j != k {
                    assert(tallies@[j] == grown[j]);
                    assert(now[j] != now[k as int]);
                }
                assert(tallies@[j].address() == grown[j].address());
                lemma_tally_step(outcomes@, i as int, now[j], DomainSet::Warm, grown[j].warm, tallies@[j].warm);
                lemma_tally_step(outcomes@, i as int, now[j], DomainSet::Cold, grown[j].cold, tallies@[j].cold);
                lemma_tally_step(outcomes@, i as int, now[j], DomainSet::Tld, grown[j].tld, tallies@[j].tld);
            }
        }
        i += 1;
    }
    assert(outcomes@.take(outcomes@.len() as int) == outcomes@);
    tallies
}

} // verus!
