//! NXDOMAIN characterization: recording what the probes found.
//!
//! Every resolver is probed once, before the benchmark, for a name that
//! cannot exist. The verdicts of the probes that reported back are
//! written into the resolvers; a resolver whose probe never reported
//! keeps the flag it had.

use crate::aggregate::lemma_filter_step;
use crate::bench::random_txid;
use crate::dns::{probe_query, query_bytes, QueryError, PROBE_DOMAIN};
use crate::transport::QueryType;
use crate::transport::{CharacterizationResult, ResolverConfig};
use vstd::prelude::*;

verus! {

/// How many probes run at the same time.
pub const PROBE_CONCURRENCY: usize = 32;

/// Size of the buffer that a probe's response is received into.
pub const PROBE_BUFFER_LEN: usize = 512;

/// A probe made ready for the wire.
#[derive(Debug)]
pub struct Probe {
    /// Transaction id that the response must carry.
    pub txid: u16,
    /// The serialized query.
    pub bytes: Vec<u8>,
}

/// The serialized probe with the given transaction id, or why there is
/// none.
pub open spec fn probe_bytes(txid: u16) -> Result<Seq<u8>, QueryError> {
    query_bytes(PROBE_DOMAIN@, QueryType::A, txid, false)
}

/// What became of preparing a probe.
#[derive(Debug)]
pub enum PreparedProbe {
    /// The probe to send.
    Ready(Probe),
    /// The probe's query cannot be built. Nothing is sent and the
    /// resolver counts as honest.
    Unencodable,
    /// No transaction id could be drawn. The probe fails as a whole and
    /// reports nothing.
    NoTransactionId,
}

/// Build the probe for one resolver under a fresh random transaction id:
/// a plain A query for the probe domain.
pub fn prepare_probe() -> (r: PreparedProbe)
    ensures
        r matches PreparedProbe::Ready(probe) ==> probe_bytes(probe.txid) == Ok::<Seq<u8>, QueryError>(
            probe.bytes@,
        ),
        r is Unencodable ==> exists|txid: u16| #[trigger] probe_bytes(txid) is Err,
{
    match random_txid() {
        Some(txid) => match probe_query(txid) {
            Ok(bytes) => PreparedProbe::Ready(Probe { txid, bytes }),
            Err(_) => {
                assert(probe_bytes(txid) is Err);
                PreparedProbe::Unencodable
            },
        },
        None => PreparedProbe::NoTransactionId,
    }
}

/// The verdict of one probe.
#[derive(Debug, Clone, Copy, PartialEq, Eq, Structural)]
pub struct ProbeReport {
    /// Position of the probed resolver in the resolver list.
    pub index: usize,
    /// True if the resolver answered the probe with a fabricated address.
    pub intercepts: bool,
}

/// The verdict of the last report on the resolver at position `k`.
pub open spec fn last_verdict(reports: Seq<ProbeReport>, k: int) -> Option<bool>
    decreases reports.len(),
{
    if reports.len() == 0 {
        None
    } else if reports.last().index == k {
        Some(reports.last().intercepts)
    } else {
        last_verdict(reports.drop_last(), k)
    }
}

/// Selects the reports that name one of `n` resolvers.
pub open spec fn names_one_of(n: nat) -> spec_fn(ProbeReport) -> bool {
    |r: ProbeReport| r.index < n
}

/// A resolver with the verdict of its last report, if it has one.
pub open spec fn with_verdict(resolver: ResolverConfig, verdict: Option<bool>) -> ResolverConfig {
    match verdict {
        Some(v) => ResolverConfig { intercepts_nxdomain: v, ..resolver },
        None => resolver,
    }
}

/// The record of one report.
pub open spec fn record_of(resolvers: Seq<ResolverConfig>, report: ProbeReport) -> CharacterizationResult {
    CharacterizationResult {
        label: resolvers[report.index as int].label,
        ip: resolvers[report.index as int].ip,
        port: resolvers[report.index as int].port,
        intercepts_nxdomain: report.intercepts,
        reachable: true,
    }
}

/// Whether `after` and `results` are what the reports make of `before`:
/// each resolver carries the verdict of its last report, and there is one
/// record per report that names a resolver, in the order of the reports.
pub open spec fn is_characterized(
    before: Seq<ResolverConfig>,
    reports: Seq<ProbeReport>,
    after: Seq<ResolverConfig>,
    results: Seq<CharacterizationResult>,
) -> bool {
    let named = reports.filter(names_one_of(before.len()));
    &&& after.len() == before.len()
    &&& forall|k: int|
        0 <= k < before.len() ==> (#[trigger] after[k]) == with_verdict(before[k], last_verdict(reports, k))
    &&& results.len() == named.len()
    &&& forall|j: int| 0 <= j < named.len() ==> (#[trigger] results[j]) == record_of(before, named[j])
}

/// Write the verdicts of the probes into the resolvers and list what was
/// found.
///
/// A report that names no resolver is passed over.
pub fn apply_characterization(
    resolvers: &mut Vec<ResolverConfig>,
    reports: &Vec<ProbeReport>,
) -> (results: Vec<CharacterizationResult>)
    ensures
        is_characterized(old(resolvers)@, reports@, final(resolvers)@, results@),
{
    let ghost before = resolvers@;
    let mut results: Vec<CharacterizationResult> = Vec::new();
    let mut i: usize = 0;
    proof {
        reveal(Seq::filter);
        assert(reports@.take(0).filter(names_one_of(before.len())).len() == 0);
    }
    while i < reports.len()
        invariant
            i <= reports@.len(),
            is_characterized(before, reports@.take(i as int), resolvers@, results@),
        decreases reports@.len() - i,
    {
        let report = reports[i];
        let ghost earlier = resolvers@;
        proof {
            lemma_filter_step(reports@, names_one_of(before.len()), i as int);
            assert(reports@.take(i + 1).drop_last() == reports@.take(i as int));
            assert(reports@.take(i + 1).last() == report);
        }
        if report.index < resolvers.len() {
            resolvers[report.index].intercepts_nxdomain = report.intercepts;
            results.push(
                CharacterizationResult {
                    label: resolvers[report.index].label.clone(),
                    ip: resolvers[report.index].ip.clone(),
                    port: resolvers[report.index].port,
                    intercepts_nxdomain: report.intercepts,
                    reachable: true,
                },
            );
        }
        proof {
            assert forall|k: int| 0 <= k < before.len() implies (#[trigger] resolvers@[k]) == with_verdict(
                before[k],
                last_verdict(reports@.take(i + 1), k),
            ) by {
                assert(earlier[k] == with_verdict(before[k], last_verdict(reports@.take(i as int), k)));
            }
        }
        i += 1;
    }
    assert(reports@.take(reports@.len() as int) == reports@);
    results
}

} // verus!
