//! The cells of the results table and of the CSV report, and the lines of
//! the configuration summary, as text.
//!
//! Latencies and scores are shown in milliseconds. Printing, table layout
//! and file writing are left to the caller.

use crate::stats::{ScoredResolver, SetStats};
use crate::text::{
    decimal, format_millis_one_decimal, format_millis_two_decimals, format_percent_one_decimal,
    millis_one_decimal, millis_two_decimals, percent_one_decimal, push_decimal, text_of,
};
use crate::transport::{BenchmarkConfig, IpFamily, ResolverConfig};
use vstd::prelude::*;
use vstd::string::StringExecFns;

verus! {

/// Resolver lists longer than this are abridged in the summary.
pub const SUMMARY_LIST_LIMIT: usize = 20;

fn push_cell(row: &mut Vec<String>, cell: String)
    ensures
        text_of(final(row)@) == text_of(old(row)@).push(cell@),
{
    row.push(cell);
    assert(text_of(row@) =~= text_of(old(row)@).push(cell@));
}

fn push_text(row: &mut Vec<String>, cell: &str)
    ensures
        text_of(final(row)@) == text_of(old(row)@).push(cell@),
{
    push_cell(row, cell.to_owned());
}

fn empty_row() -> (row: Vec<String>)
    ensures
        text_of(row@) == Seq::<Seq<char>>::empty(),
{
    let row: Vec<String> = Vec::new();
    assert(text_of(row@) =~= Seq::<Seq<char>>::empty());
    row
}

/// What stands in the rank column: the tie group where there is one,
/// else the rank.
pub open spec fn rank_text(r: ScoredResolver) -> Seq<char> {
    match r.tie_group {
        Some(group) => group@,
        None => decimal(r.rank as nat),
    }
}

/// The rank column of a resolver.
pub fn rank_cell(r: &ScoredResolver) -> (cell: String)
    ensures
        cell@ == rank_text(*r),
{
    match &r.tie_group {
        Some(group) => group.clone(),
        None => {
            let mut out = String::new();
            push_decimal(&mut out, r.rank as u64);
            assert(out@ =~= decimal(r.rank as nat));
            out
        },
    }
}

/// Whether any resolver carries a tie group.
pub fn has_ties(results: &Vec<ScoredResolver>) -> (r: bool)
    ensures
        r == exists|i: int| 0 <= i < results@.len() && results@[i].tie_group is Some,
{
    let mut i: usize = 0;
    while i < results.len()
        invariant
            i <= results@.len(),
            forall|k: int| 0 <= k < i ==> results@[k].tie_group is None,
        decreases results@.len() - i,
    {
        if results[i].tie_group.is_some() {
            return true;
        }
        i += 1;
    }
    false
}

/// The header of the results table.
pub open spec fn table_header_text(show_tld: bool) -> Seq<Seq<char>> {
    seq!["Rank"@, "Resolver"@, "IP Address"@, "Score"@, "Warm p50"@, "Cold p50"@] + if show_tld {
        seq!["TLD p50"@]
    } else {
        Seq::empty()
    } + seq!["Success %"@, "NXDOMAIN"@]
}

/// The header of the results table.
pub fn table_header(show_tld: bool) -> (row: Vec<String>)
    ensures
        text_of(row@) == table_header_text(show_tld),
{
    let mut row = empty_row();
    push_text(&mut row, "Rank");
    push_text(&mut row, "Resolver");
    push_text(&mut row, "IP Address");
    push_text(&mut row, "Score");
    push_text(&mut row, "Warm p50");
    push_text(&mut row, "Cold p50");
    if show_tld {
        push_text(&mut row, "TLD p50");
    }
    push_text(&mut row, "Success %");
    push_text(&mut row, "NXDOMAIN");
    assert(text_of(row@) =~= table_header_text(show_tld));
    row
}

/// A latency cell of the table: milliseconds with one decimal and the
/// unit.
pub open spec fn latency_cell_text(us: u32) -> Seq<char> {
    millis_one_decimal(us as u64) + " ms"@
}

fn latency_cell(us: u32) -> (cell: String)
    ensures
        cell@ == latency_cell_text(us),
{
    let mut cell = format_millis_one_decimal(us as u64);
    cell.append(" ms");
    cell
}

/// The row of one resolver in the results table.
pub open spec fn table_row_text(r: ScoredResolver, show_tld: bool) -> Seq<Seq<char>> {
    seq![
        rank_text(r),
        r.stats.label@,
        r.stats.addr@,
        millis_one_decimal(r.stats.overall_score),
        latency_cell_text(r.stats.warm.p50_us),
        latency_cell_text(r.stats.cold.p50_us),
    ] + if show_tld {
        seq![
            match r.stats.tld {
                Some(tld) => latency_cell_text(tld.p50_us),
                None => "-"@,
            },
        ]
    } else {
        Seq::empty()
    } + seq![
        percent_one_decimal(r.stats.success_rate_bp) + "%"@,
        if r.stats.intercepts_nxdomain {
            "Intercepts"@
        } else {
            "OK"@
        },
    ]
}

/// The row of one resolver in the results table.
pub fn table_row(r: &ScoredResolver, show_tld: bool) -> (row: Vec<String>)
    ensures
        text_of(row@) == table_row_text(*r, show_tld),
{
    let mut row = empty_row();
    push_cell(&mut row, rank_cell(r));
    push_cell(&mut row, r.stats.label.clone());
    push_cell(&mut row, r.stats.addr.clone());
    push_cell(&mut row, format_millis_one_decimal(r.stats.overall_score));
    push_cell(&mut row, latency_cell(r.stats.warm.p50_us));
    push_cell(&mut row, latency_cell(r.stats.cold.p50_us));
    if show_tld {
        match r.stats.tld {
            Some(tld) => push_cell(&mut row, latency_cell(tld.p50_us)),
            None => push_text(&mut row, "-"),
        }
    }
    let mut rate = format_percent_one_decimal(r.stats.success_rate_bp);
    rate.append("%");
    push_cell(&mut row, rate);
    if r.stats.intercepts_nxdomain {
        push_text(&mut row, "Intercepts");
    } else {
        push_text(&mut row, "OK");
    }
    assert(text_of(row@) =~= table_row_text(*r, show_tld));
    row
}

/// The eight CSV column names of one set.
pub open spec fn set_header_text(set: Seq<char>) -> Seq<Seq<char>> {
    seq![
        set + "_p50_ms"@,
        set + "_p95_ms"@,
        set + "_mean_ms"@,
        set + "_stddev_ms"@,
        set + "_success"@,
        set + "_timeout"@,
        set + "_total"@,
        set + "_score"@,
    ]
}

fn push_set_header(row: &mut Vec<String>, set: &str)
    ensures
        text_of(final(row)@) == text_of(old(row)@) + set_header_text(set@),
{
    let ghost before = text_of(row@);
    push_cell(row, set.to_owned().concat("_p50_ms"));
    push_cell(row, set.to_owned().concat("_p95_ms"));
    push_cell(row, set.to_owned().concat("_mean_ms"));
    push_cell(row, set.to_owned().concat("_stddev_ms"));
    push_cell(row, set.to_owned().concat("_success"));
    push_cell(row, set.to_owned().concat("_timeout"));
    push_cell(row, set.to_owned().concat("_total"));
    push_cell(row, set.to_owned().concat("_score"));
    assert(text_of(row@) =~= before + set_header_text(set@));
}

/// The header of the CSV report.
pub open spec fn csv_header_text(show_tld: bool) -> Seq<Seq<char>> {
    seq!["rank"@, "resolver"@, "ip_address"@, "overall_score"@] + set_header_text("warm"@)
        + set_header_text("cold"@) + if show_tld {
        set_header_text("tld"@)
    } else {
        Seq::empty()
    } + seq!["success_rate"@, "intercepts_nxdomain"@, "tie_group"@]
}

/// The header of the CSV report.
pub fn csv_header(show_tld: bool) -> (row: Vec<String>)
    ensures
        text_of(row@) == csv_header_text(show_tld),
{
    let mut row = empty_row();
    push_text(&mut row, "rank");
    push_text(&mut row, "resolver");
    push_text(&mut row, "ip_address");
    push_text(&mut row, "overall_score");
    push_set_header(&mut row, "warm");
    push_set_header(&mut row, "cold");
    if show_tld {
        push_set_header(&mut row, "tld");
    }
    push_text(&mut row, "success_rate");
    push_text(&mut row, "intercepts_nxdomain");
    push_text(&mut row, "tie_group");
    assert(text_of(row@) =~= csv_header_text(show_tld));
    row
}

/// The eight CSV cells of one set: latencies and score in milliseconds
/// with two decimals, counts as they are.
pub open spec fn set_cells_text(stats: SetStats) -> Seq<Seq<char>> {
    seq![
        millis_two_decimals(stats.p50_us as u64),
        millis_two_decimals(stats.p95_us as u64),
        millis_two_decimals(stats.mean_us as u64),
        millis_two_decimals(stats.stddev_us as u64),
        decimal(stats.success_count as nat),
        decimal(stats.timeout_count as nat),
        decimal(stats.total_count as nat),
        millis_two_decimals(stats.score),
    ]
}

/// Eight empty cells, for a set that was not measured.
pub open spec fn blank_set_cells() -> Seq<Seq<char>> {
    Seq::new(8, |i: int| Seq::<char>::empty())
}

fn count_cell(n: usize) -> (cell: String)
    ensures
        cell@ == decimal(n as nat),
{
    let mut out = String::new();
    push_decimal(&mut out, n as u64);
    assert(out@ =~= decimal(n as nat));
    out
}

fn push_set_cells(row: &mut Vec<String>, stats: &SetStats)
    ensures
        text_of(final(row)@) == text_of(old(row)@) + set_cells_text(*stats),
{
    let ghost before = text_of(row@);
    push_cell(row, format_millis_two_decimals(stats.p50_us as u64));
    push_cell(row, format_millis_two_decimals(stats.p95_us as u64));
    push_cell(row, format_millis_two_decimals(stats.mean_us as u64));
    push_cell(row, format_millis_two_decimals(stats.stddev_us as u64));
    push_cell(row, count_cell(stats.success_count));
    push_cell(row, count_cell(stats.timeout_count));
    push_cell(row, count_cell(stats.total_count));
    push_cell(row, format_millis_two_decimals(stats.score));
    assert(text_of(row@) =~= before + set_cells_text(*stats));
}

fn push_blank_set_cells(row: &mut Vec<String>)
    ensures
        text_of(final(row)@) == text_of(old(row)@) + blank_set_cells(),
{
    let ghost before = text_of(row@);
    let mut i: usize = 0;
    while i < 8
        invariant
            i <= 8,
            text_of(row@) == before + Seq::new(i as nat, |k: int| Seq::<char>::empty()),
        decreases 8 - i,
    {
        push_cell(row, String::new());
        assert(text_of(row@) =~= before + Seq::new((i + 1) as nat, |k: int| Seq::<char>::empty()));
        i += 1;
    }
}

/// The row of one resolver in the CSV report.
pub open spec fn csv_row_text(r: ScoredResolver, show_tld: bool) -> Seq<Seq<char>> {
    seq![rank_text(r), r.stats.label@, r.stats.addr@, millis_two_decimals(r.stats.overall_score)]
        + set_cells_text(r.stats.warm) + set_cells_text(r.stats.cold) + if show_tld {
        match r.stats.tld {
            Some(tld) => set_cells_text(tld),
            None => blank_set_cells(),
        }
    } else {
        Seq::empty()
    } + seq![
        percent_one_decimal(r.stats.success_rate_bp),
        if r.stats.intercepts_nxdomain {
            "true"@
        } else {
            "false"@
        },
        match r.tie_group {
            Some(group) => group@,
            None => Seq::empty(),
        },
    ]
}

/// The row of one resolver in the CSV report.
pub fn csv_row(r: &ScoredResolver, show_tld: bool) -> (row: Vec<String>)
    ensures
        text_of(row@) == csv_row_text(*r, show_tld),
{
    let mut row = empty_row();
    push_cell(&mut row, rank_cell(r));
    push_cell(&mut row, r.stats.label.clone());
    push_cell(&mut row, r.stats.addr.clone());
    push_cell(&mut row, format_millis_two_decimals(r.stats.overall_score));
    push_set_cells(&mut row, &r.stats.warm);
    push_set_cells(&mut row, &r.stats.cold);
    if show_tld {
        match &r.stats.tld {
            Some(tld) => push_set_cells(&mut row, tld),
            None => push_blank_set_cells(&mut row),
        }
    }
    push_cell(&mut row, format_percent_one_decimal(r.stats.success_rate_bp));
    if r.stats.intercepts_nxdomain {
        push_text(&mut row, "true");
    } else {
        push_text(&mut row, "false");
    }
    match &r.tie_group {
        Some(group) => push_cell(&mut row, group.clone()),
        None => push_cell(&mut row, String::new()),
    }
    assert(text_of(row@) =~= csv_row_text(*r, show_tld));
    row
}

/// A resolver's socket address as text: `ip:port`, with the address in
/// brackets for IPv6.
pub open spec fn socket_text(r: ResolverConfig) -> Seq<char> {
    match r.family {
        IpFamily::V4 => r.ip@ + ":"@ + decimal(r.port as nat),
        IpFamily::V6 => "["@ + r.ip@ + "]:"@ + decimal(r.port as nat),
    }
}

/// A resolver's socket address as text.
pub fn socket_string(r: &ResolverConfig) -> (s: String)
    ensures
        s@ == socket_text(*r),
{
    match r.family {
        IpFamily::V4 => {
            let mut out = r.ip.clone();
            out.append(":");
            push_decimal(&mut out, r.port as u64);
            assert(out@ =~= socket_text(*r));
            out
        },
        IpFamily::V6 => {
            let mut out = "[".to_owned();
            out.append(r.ip.as_str());
            out.append("]:");
            push_decimal(&mut out, r.port as u64);
            assert(out@ =~= socket_text(*r));
            out
        },
    }
}

/// The summary line of one resolver.
pub open spec fn resolver_line(r: ResolverConfig) -> Seq<char> {
    "  - "@ + r.label@ + " ("@ + socket_text(r) + ")"@
}

/// The summary lines of the resolvers at positions `from..to`.
pub open spec fn resolver_lines(resolvers: Seq<ResolverConfig>, from: int, to: int) -> Seq<Seq<char>> {
    Seq::new((to - from) as nat, |i: int| resolver_line(resolvers[from + i]))
}

/// The line that stands for the resolvers left out of the summary.
pub open spec fn more_line(count: int) -> Seq<char> {
    "  ... ("@ + decimal(count as nat) + " more)"@
}

/// The resolver list of the summary: all of a short list, and of a long
/// one the first five, a count of the rest, and the last two.
pub open spec fn resolver_list_text(resolvers: Seq<ResolverConfig>) -> Seq<Seq<char>> {
    if resolvers.len() <= SUMMARY_LIST_LIMIT {
        resolver_lines(resolvers, 0, resolvers.len() as int)
    } else {
        resolver_lines(resolvers, 0, 5) + seq![more_line(resolvers.len() - 7)] + resolver_lines(
            resolvers,
            resolvers.len() - 2,
            resolvers.len() as int,
        )
    }
}

/// A line made of a caption and a number.
pub open spec fn count_line(caption: Seq<char>, n: nat) -> Seq<char> {
    caption + decimal(n)
}

/// "yes" or "no".
pub open spec fn yes_no(b: bool) -> Seq<char> {
    if b {
        "yes"@
    } else {
        "no"@
    }
}

/// The head of the summary: title, resolver count and resolver list.
pub open spec fn summary_head_text(resolvers: Seq<ResolverConfig>) -> Seq<Seq<char>> {
    seq![
        "DNS Benchmark Configuration"@,
        "==========================="@,
        count_line("Resolvers:      "@, resolvers.len()),
    ] + resolver_list_text(resolvers)
}

/// The domain counts of the summary.
pub open spec fn summary_domains_text(
    warm_count: usize,
    cold_count: usize,
    tld_count: usize,
    query_tld: bool,
) -> Seq<Seq<char>> {
    seq![
        count_line("Warm domains:   "@, warm_count as nat),
        count_line("Cold domains:   "@, cold_count as nat),
    ] + if query_tld {
        seq![count_line("TLD domains:    "@, tld_count as nat)]
    } else {
        Seq::empty()
    }
}

/// The settings of the summary, with durations in whole milliseconds.
pub open spec fn summary_settings_text(config: BenchmarkConfig) -> Seq<Seq<char>> {
    seq![
        count_line("Rounds:         "@, config.rounds as nat),
        count_line("Timeout:        "@, (config.timeout_us / 1000) as nat) + " ms"@,
        count_line("Concurrency:    "@, config.max_inflight as nat),
        count_line("Spacing:        "@, (config.inter_query_spacing_us / 1000) as nat) + " ms"@,
        "Query AAAA:     "@ + yes_no(config.query_aaaa),
        "DNSSEC (DO):    "@ + yes_no(config.dnssec),
    ] + if config.discover {
        seq![count_line("Discovery:      top "@, config.top_n as nat)]
    } else {
        Seq::empty()
    } + match config.seed {
        Some(seed) => seq![count_line("Seed:           "@, seed as nat)],
        None => Seq::empty(),
    } + seq![Seq::<char>::empty()]
}

/// The lines of the configuration summary.
pub open spec fn config_summary_text(
    resolvers: Seq<ResolverConfig>,
    warm_count: usize,
    cold_count: usize,
    tld_count: usize,
    config: BenchmarkConfig,
) -> Seq<Seq<char>> {
    summary_head_text(resolvers) + summary_domains_text(
        warm_count,
        cold_count,
        tld_count,
        config.query_tld,
    ) + summary_settings_text(config)
}

fn count_line_string(caption: &str, n: u64) -> (line: String)
    ensures
        line@ == count_line(caption@, n as nat),
{
    let mut out = caption.to_owned();
    push_decimal(&mut out, n);
    out
}

fn yes_no_line(caption: &str, b: bool) -> (line: String)
    ensures
        line@ == caption@ + yes_no(b),
{
    let mut out = caption.to_owned();
    if b {
        out.append("yes");
    } else {
        out.append("no");
    }
    out
}

fn push_resolver_lines(lines: &mut Vec<String>, resolvers: &Vec<ResolverConfig>, from: usize, to: usize)
    requires
        from <= to <= resolvers@.len(),
    ensures
        text_of(final(lines)@) == text_of(old(lines)@) + resolver_lines(
            resolvers@,
            from as int,
            to as int,
        ),
{
    let ghost before = text_of(lines@);
    let mut i: usize = from;
    assert(text_of(lines@) =~= before + resolver_lines(resolvers@, from as int, from as int));
    while i < to
        invariant
            from <= i <= to <= resolvers@.len(),
            text_of(lines@) == before + resolver_lines(resolvers@, from as int, i as int),
        decreases to - i,
    {
        let r = &resolvers[i];
        let mut line = "  - ".to_owned();
        line.append(r.label.as_str());
        line.append(" (");
        let socket = socket_string(r);
        line.append(socket.as_str());
        line.append(")");
        assert(line@ =~= resolver_line(*r));
        push_cell(lines, line);
        assert(text_of(lines@) =~= before + resolver_lines(resolvers@, from as int, i + 1));
        i += 1;
    }
}

fn push_summary_head(lines: &mut Vec<String>, resolvers: &Vec<ResolverConfig>)
    ensures
        text_of(final(lines)@) == text_of(old(lines)@) + summary_head_text(resolvers@),
{
    let ghost before = text_of(lines@);
    let n = resolvers.len();
    push_text(lines, "DNS Benchmark Configuration");
    push_text(lines, "===========================");
    push_cell(lines, count_line_string("Resolvers:      ", n as u64));
    let ghost head = text_of(lines@);
    if n <= SUMMARY_LIST_LIMIT {
        push_resolver_lines(lines, resolvers, 0, n);
    } else {
        push_resolver_lines(lines, resolvers, 0, 5);
        let mut more = "  ... (".to_owned();
        push_decimal(&mut more, (n - 7) as u64);
        more.append(" more)");
        assert(more@ =~= more_line(n - 7));
        push_cell(lines, more);
        push_resolver_lines(lines, resolvers, n - 2, n);
    }
    assert(text_of(lines@) =~= head + resolver_list_text(resolvers@));
    assert(text_of(lines@) =~= before + summary_head_text(resolvers@));
}

fn push_summary_domains(
    lines: &mut Vec<String>,
    warm_count: usize,
    cold_count: usize,
    tld_count: usize,
    query_tld: bool,
)
    ensures
        text_of(final(lines)@) == text_of(old(lines)@) + summary_domains_text(
            warm_count,
            cold_count,
            tld_count,
            query_tld,
        ),
{
    let ghost before = text_of(lines@);
    push_cell(lines, count_line_string("Warm domains:   ", warm_count as u64));
    push_cell(lines, count_line_string("Cold domains:   ", cold_count as u64));
    if query_tld {
        push_cell(lines, count_line_string("TLD domains:    ", tld_count as u64));
    }
    assert(text_of(lines@) =~= before + summary_domains_text(
        warm_count,
        cold_count,
        tld_count,
        query_tld,
    ));
}

fn push_summary_settings(lines: &mut Vec<String>, config: &BenchmarkConfig)
    ensures
        text_of(final(lines)@) == text_of(old(lines)@) + summary_settings_text(*config),
{
    let ghost before = text_of(lines@);
    push_cell(lines, count_line_string("Rounds:         ", config.rounds as u64));
    let mut timeout = count_line_string("Timeout:        ", (config.timeout_us / 1000) as u64);
    timeout.append(" ms");
    push_cell(lines, timeout);
    push_cell(lines, count_line_string("Concurrency:    ", config.max_inflight as u64));
    let mut spacing = count_line_string("Spacing:        ", config.inter_query_spacing_us / 1000);
    spacing.append(" ms");
    push_cell(lines, spacing);
    push_cell(lines, yes_no_line("Query AAAA:     ", config.query_aaaa));
    push_cell(lines, yes_no_line("DNSSEC (DO):    ", config.dnssec));
    let ghost fixed = text_of(lines@);
    if config.discover {
        push_cell(lines, count_line_string("Discovery:      top ", config.top_n as u64));
    }
    match config.seed {
        Some(seed) => push_cell(lines, count_line_string("Seed:           ", seed)),
        None => {},
    }
    push_cell(lines, String::new());
    assert(text_of(lines@) =~= before + summary_settings_text(*config));
}

/// The lines of the summary that is shown before a benchmark runs.
pub fn config_summary(
    resolvers: &Vec<ResolverConfig>,
    warm_count: usize,
    cold_count: usize,
    tld_count: usize,
    config: &BenchmarkConfig,
) -> (lines: Vec<String>)
    ensures
        text_of(lines@) == config_summary_text(resolvers@, warm_count, cold_count, tld_count, *config),
{
    let mut lines = empty_row();
    push_summary_head(&mut lines, resolvers);
    push_summary_domains(&mut lines, warm_count, cold_count, tld_count, config.query_tld);
    push_summary_settings(&mut lines, config);
    assert(text_of(lines@) =~= config_summary_text(
        resolvers@,
        warm_count,
        cold_count,
        tld_count,
        *config,
    ));
    lines
}

} // verus!
