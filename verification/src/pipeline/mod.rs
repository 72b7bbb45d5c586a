//! A run over the sources of one kind: each source's feed is parsed, each
//! record handled and exported, and every failure is recorded in the
//! source's report instead of ending the run.

pub mod price;
pub mod stock;

use vstd::prelude::*;
use crate::cli::ExtractKind;
use crate::config::{Config, FormatConfig, SourceConfig};
use crate::output::{ExportEntry, Exporter, OutputWriter, WriteRowView};
use crate::sources::xml::xml_records;
use crate::sources::{Record, RecordView};
use crate::text::{push_str, string_of};
use stock::{stock_handled, StockHandler};

verus! {

/// Everything worth telling a human about one source's run. Every source
/// gets one, also a source whose feed could not be fetched.
pub struct SourceReport {
    pub supplier: String,
    pub records: usize,
    pub errors: Vec<String>,
}

pub struct SourceReportView {
    pub supplier: Seq<char>,
    pub records: nat,
    pub errors: Seq<Seq<char>>,
}

pub open spec fn strings_view(v: Seq<String>) -> Seq<Seq<char>> {
    v.map_values(|s: String| s@)
}

impl View for SourceReport {
    type V = SourceReportView;

    open spec fn view(&self) -> SourceReportView {
        SourceReportView {
            supplier: self.supplier@,
            records: self.records as nat,
            errors: strings_view(self.errors@),
        }
    }
}

/// A run's full result: one report per source, and the failures that
/// belong to no single source.
pub struct RunResult {
    pub reports: Vec<SourceReport>,
    pub program_errors: Vec<String>,
}

pub open spec fn write_failed_message(source: Seq<char>, ean: Seq<char>, err: Seq<char>) -> Seq<
    char,
> {
    "write failed (source="@ + source + ") (ean="@ + ean + "): "@ + err
}

pub open spec fn handle_failed_message(ean: Seq<char>, err: Seq<char>) -> Seq<char> {
    "handle failed (ean="@ + ean + "): "@ + err
}

/// The rows a stock run hands to the writer for `recs`, in order.
pub open spec fn expected_exports(recs: Seq<RecordView>, shortname: Seq<char>, prefix: Seq<char>) -> Seq<
    (Seq<char>, WriteRowView, Seq<char>, Seq<char>),
>
    decreases recs.len(),
{
    if recs.len() == 0 {
        Seq::empty()
    } else {
        let r = recs.last();
        let before = expected_exports(recs.drop_last(), shortname, prefix);
        match stock_handled(r.value) {
            Ok(row) => before.push((r.ean, row, shortname, prefix)),
            Err(_) => before,
        }
    }
}

/// The errors a stock run records for `recs`, given what the writer
/// answered for each exported row (`failures`, one per exported row).
pub open spec fn record_errors(
    recs: Seq<RecordView>,
    failures: Seq<Option<Seq<char>>>,
    source: Seq<char>,
) -> Seq<Seq<char>>
    decreases recs.len(),
{
    if recs.len() == 0 {
        Seq::empty()
    } else {
        let r = recs.last();
        match stock_handled(r.value) {
            Ok(_) => {
                let before = record_errors(recs.drop_last(), failures.drop_last(), source);
                match failures.last() {
                    Some(e) => before.push(write_failed_message(source, r.ean, e)),
                    None => before,
                }
            },
            Err(m) => record_errors(recs.drop_last(), failures, source).push(
                handle_failed_message(r.ean, m),
            ),
        }
    }
}

pub open spec fn entry_call(e: ExportEntry) -> (Seq<char>, WriteRowView, Seq<char>, Seq<char>) {
    (e.ean, e.row, e.shortname, e.prefix)
}

pub open spec fn entry_failure(e: ExportEntry) -> Option<Seq<char>> {
    e.failure
}

/// What running `source` with the fetch result `fetched` reports, `log`
/// being the rows its run handed to the writer: a failed fetch reports
/// nothing but the failure; otherwise the records the feed yields are
/// counted and exported, and the errors of handling, writing and parsing
/// are listed in that order.
pub open spec fn source_outcome(
    source: SourceConfig,
    fetched: Result<Seq<char>, Seq<char>>,
    log: Seq<ExportEntry>,
    report: SourceReportView,
) -> bool {
    &&& report.supplier == source.name@
    &&& match fetched {
        Err(m) => {
            &&& report.records == 0
            &&& report.errors == seq!["fetch failed: "@ + m]
            &&& log.len() == 0
        },
        Ok(content) => match source.format_config {
            FormatConfig::Xml(x) => {
                let (recs, end) = xml_records(content, x.xml.record_tag@, source.fields@);
                &&& report.records == recs.len()
                &&& log.map_values(|e: ExportEntry| entry_call(e)) == expected_exports(
                    recs,
                    source.shortname@,
                    source.prefix@,
                )
                &&& report.errors == record_errors(
                    recs,
                    log.map_values(|e: ExportEntry| entry_failure(e)),
                    source.name@,
                ) + match end {
                    Ok(()) => Seq::<Seq<char>>::empty(),
                    Err(m) => seq!["parse failed: "@ + m],
                }
            },
            FormatConfig::Csv(_) => false,
        },
    }
}

pub open spec fn fetched_view(f: Result<String, String>) -> Result<Seq<char>, Seq<char>> {
    match f {
        Ok(c) => Ok(c@),
        Err(e) => Err(e@),
    }
}

/// What `run_source` can run: a fetched feed is an XML feed of a stock run,
/// read with fields of distinct names.
pub open spec fn runnable(kind: ExtractKind, fetched: Result<String, String>, source: SourceConfig) -> bool {
    match fetched {
        Err(_) => true,
        Ok(c) => {
            &&& kind == ExtractKind::Stock
            &&& source.format_config is Xml
            &&& source.fields_distinct()
            &&& c@.len() < usize::MAX
        },
    }
}

fn write_failed_text(source: &str, ean: &str, err: &str) -> (res: String)
    ensures
        res@ == write_failed_message(source@, ean@, err@),
{
    let mut m = string_of("write failed (source=");
    push_str(&mut m, source);
    push_str(&mut m, ") (ean=");
    push_str(&mut m, ean);
    push_str(&mut m, "): ");
    push_str(&mut m, err);
    m
}

fn handle_failed_text(ean: &str, err: &str) -> (res: String)
    ensures
        res@ == handle_failed_message(ean@, err@),
{
    let mut m = string_of("handle failed (ean=");
    push_str(&mut m, ean);
    push_str(&mut m, "): ");
    push_str(&mut m, err);
    m
}

/// Handles one record and hands its row to the writer, noting what failed.
fn process_record<W: OutputWriter>(
    record: Record,
    handler: &mut StockHandler,
    exporter: &mut Exporter<W>,
    errors: &mut Vec<String>,
    source: &SourceConfig,
    start: Ghost<Seq<ExportEntry>>,
    seen: Ghost<Seq<RecordView>>,
)
    requires
        old(handler).count() == seen@.len(),
        old(handler).count() < usize::MAX,
        start@.len() <= old(exporter).log().len(),
        old(exporter).log().take(start@.len() as int) == start@,
        old(exporter).log().skip(start@.len() as int).map_values(|e: ExportEntry| entry_call(e))
            == expected_exports(seen@, source.shortname@, source.prefix@),
        strings_view(old(errors)@) == record_errors(
            seen@,
            old(exporter).log().skip(start@.len() as int).map_values(|e: ExportEntry| entry_failure(e)),
            source.name@,
        ),
    ensures
        final(handler).count() == seen@.len() + 1,
        start@.len() <= final(exporter).log().len(),
        final(exporter).log().take(start@.len() as int) == start@,
        final(exporter).log().skip(start@.len() as int).map_values(|e: ExportEntry| entry_call(e))
            == expected_exports(seen@.push(record@), source.shortname@, source.prefix@),
        strings_view(final(errors)@) == record_errors(
            seen@.push(record@),
            final(exporter).log().skip(start@.len() as int).map_values(|e: ExportEntry| entry_failure(e)),
            source.name@,
        ),
{
    let ghost log0 = exporter.log();
    let ghost errs0 = errors@;
    let ghost s = start@.len() as int;
    match handler.on_record(&record) {
        Ok(Some(row)) => {
            match exporter.write_record(record.ean.as_str(), &row, source.shortname.as_str(), source.prefix.as_str()) {
                Ok(()) => {},
                Err(e) => {
                    let m = write_failed_text(source.name.as_str(), record.ean.as_str(), e.as_str());
                    errors.push(m);
                },
            }
        },
        // A record the handler holds back is skipped on purpose.
        Ok(None) => {},
        Err(e) => {
            let m = handle_failed_text(record.ean.as_str(), e.as_str());
            errors.push(m);
        },
    }
    proof {
        let log = exporter.log();
        let seen2 = seen@.push(record@);
        let rv = record@;
        assert(seen2.drop_last() =~= seen@);
        assert(seen2.last() == rv);
        let old_new = log0.skip(s);
        let new = log.skip(s);
        let ocalls = old_new.map_values(|e: ExportEntry| entry_call(e));
        let ofails = old_new.map_values(|e: ExportEntry| entry_failure(e));
        let calls = new.map_values(|e: ExportEntry| entry_call(e));
        let fails = new.map_values(|e: ExportEntry| entry_failure(e));
        match stock_handled(rv.value) {
            Ok(row) => {
                assert(log.len() == log0.len() + 1);
                assert(new =~= old_new.push(log.last()));
                assert(log.take(s) =~= log0.take(s));
                assert(calls =~= ocalls.push(entry_call(log.last())));
                assert(fails =~= ofails.push(entry_failure(log.last())));
                assert(calls.drop_last() =~= ocalls);
                assert(fails.drop_last() =~= ofails);
                assert(entry_call(log.last()) == (rv.ean, row, source.shortname@, source.prefix@));
                match log.last().failure {
                    Some(e) => {
                        assert(strings_view(errors@) =~= strings_view(errs0).push(
                            write_failed_message(source.name@, rv.ean, e),
                        ));
                    },
                    None => {
                        assert(errors@ == errs0);
                    },
                }
            },
            Err(m) => {
                assert(log == log0);
                assert(strings_view(errors@) =~= strings_view(errs0).push(
                    handle_failed_message(rv.ean, m),
                ));
            },
        }
    }
}

/// Runs one fetched XML feed of a stock run.
fn run_fetched<W: OutputWriter>(content: &String, source: &SourceConfig, exporter: &mut Exporter<W>) -> (res:
    SourceReport)
    requires
        source.format_config is Xml,
        source.fields_distinct(),
        content@.len() < usize::MAX,
    ensures
        old(exporter).log().len() <= final(exporter).log().len(),
        final(exporter).log().take(old(exporter).log().len() as int) == old(exporter).log(),
        source_outcome(
            *source,
            Ok(content@),
            final(exporter).log().skip(old(exporter).log().len() as int),
            res@,
        ),
{
    let x = match &source.format_config {
        FormatConfig::Xml(x) => x,
        FormatConfig::Csv(_) => {
            assert(false);
            return SourceReport { supplier: String::new(), records: 0, errors: Vec::new() };
        },
    };
    let mut records = x.records(content.as_str(), &source.fields);
    let ghost start = exporter.log();
    let ghost all = records.remaining();
    let mut handler = StockHandler::new();
    let mut errors: Vec<String> = Vec::new();
    let mut parse_error: Option<String> = None;
    proof {
        assert(start.skip(start.len() as int) =~= Seq::<ExportEntry>::empty());
        assert(start.take(start.len() as int) =~= start);
        assert(strings_view(errors@) =~= Seq::<Seq<char>>::empty());
        assert(start.skip(start.len() as int).map_values(|e: ExportEntry| entry_call(e)) =~= Seq::empty());
        assert(start.skip(start.len() as int).map_values(|e: ExportEntry| entry_failure(e))
            =~= Seq::empty());
        assert(all.0.take(0) =~= Seq::<RecordView>::empty());
        assert(all.0.skip(0) =~= all.0);
        records.lemma_remaining_bounded();
    }
    loop
        invariant_except_break
            handler.count() + records.size() <= content@.len() + 1,
            match parse_error {
                None => records.remaining() == (all.0.skip(handler.count() as int), all.1),
                Some(m) => {
                    &&& handler.count() == all.0.len()
                    &&& all.1 == Err::<(), Seq<char>>(m@)
                    &&& records.remaining() == (Seq::<RecordView>::empty(), Ok::<(), Seq<char>>(()))
                },
            },
            exporter.log().skip(start.len() as int).map_values(|e: ExportEntry| entry_call(e))
                == expected_exports(all.0.take(handler.count() as int), source.shortname@, source.prefix@),
            strings_view(errors@) == record_errors(
                all.0.take(handler.count() as int),
                exporter.log().skip(start.len() as int).map_values(|e: ExportEntry| entry_failure(e)),
                source.name@,
            ),
        invariant
            records.wf(),
            source.format_config is Xml,
            all == xml_records(content@, x.xml.record_tag@, source.fields@),
            x == source.format_config->Xml_0,
            handler.count() <= all.0.len(),
            content@.len() < usize::MAX,
            start.len() <= exporter.log().len(),
            exporter.log().take(start.len() as int) == start,
        ensures
            handler.count() == all.0.len(),
            match parse_error {
                None => all.1 is Ok,
                Some(m) => all.1 == Err::<(), Seq<char>>(m@),
            },
            start.len() <= exporter.log().len(),
            exporter.log().take(start.len() as int) == start,
            exporter.log().skip(start.len() as int).map_values(|e: ExportEntry| entry_call(e))
                == expected_exports(all.0, source.shortname@, source.prefix@),
            strings_view(errors@) == record_errors(
                all.0,
                exporter.log().skip(start.len() as int).map_values(|e: ExportEntry| entry_failure(e)),
                source.name@,
            ),
        decreases records.size(),
    {
        let ghost count = handler.count();
        let ghost rem0 = records.remaining();
        match records.next_record() {
            Some(Ok(record)) => {
                proof {
                    assert(all.0.skip(count as int)[0] == all.0[count as int]);
                    assert(all.0.take((count + 1) as int) =~= all.0.take(count as int).push(all.0[count as int]));
                    assert(all.0.skip(count as int).drop_first() =~= all.0.skip((count + 1) as int));
                }
                process_record(
                    record,
                    &mut handler,
                    exporter,
                    &mut errors,
                    source,
                    Ghost(start),
                    Ghost(all.0.take(count as int)),
                );
            },
            Some(Err(m)) => {
                proof {
                    assert(all.0.skip(count as int).len() == 0);
                    assert(all.0.take(count as int) =~= all.0);
                }
                parse_error = Some(m);
            },
            None => {
                proof {
                    assert(rem0.0.len() == 0);
                    assert(rem0.1 is Ok);
                    if parse_error is None {
                        assert(rem0 == (all.0.skip(count as int), all.1));
                        assert(all.0.skip(count as int).len() == 0);
                    }
                    assert(all.0.take(count as int) =~= all.0);
                }
                break;
            },
        }
    }
    let mut report = handler.finish(source.name.as_str());
    let mut i: usize = 0;
    while i < errors.len()
        invariant
            i <= errors@.len(),
            strings_view(report.errors@) == strings_view(errors@.take(i as int)),
            report.supplier@ == source.name@,
            report.records == all.0.len(),
        decreases errors@.len() - i,
    {
        let e = crate::text::copy_string(&errors[i]);
        let ghost before = report.errors@;
        report.errors.push(e);
        assert(errors@.take(i + 1) =~= errors@.take(i as int).push(errors@[i as int]));
        assert(report.errors@ =~= before.push(e));
        assert(strings_view(report.errors@) =~= strings_view(before).push(e@));
        assert(strings_view(errors@.take(i + 1)) =~= strings_view(errors@.take(i as int)).push(
            errors@[i as int]@,
        ));
        i += 1;
    }
    assert(errors@.take(errors@.len() as int) == errors@);
    match parse_error {
        Some(m) => {
            let mut e = string_of("parse failed: ");
            push_str(&mut e, m.as_str());
            let ghost before = report.errors@;
            report.errors.push(e);
            assert(strings_view(report.errors@) =~= strings_view(before).push(e@));
        },
        None => {
            assert(strings_view(report.errors@) =~= strings_view(report.errors@) + Seq::<Seq<char>>::empty());
        },
    }
    proof {
        let (recs, end) = xml_records(content@, x.xml.record_tag@, source.fields@);
        assert(recs == all.0);
        assert(end == all.1);
        assert(report@.records == recs.len());
        assert(report@.supplier == source.name@);
        assert(start == old(exporter).log());
        let log = exporter.log().skip(start.len() as int);
        assert(log.map_values(|e: ExportEntry| entry_call(e)) == expected_exports(recs, source.shortname@, source.prefix@));
        assert(report@.errors == record_errors(
            recs,
            log.map_values(|e: ExportEntry| entry_failure(e)),
            source.name@,
        ) + match end {
            Ok(()) => Seq::<Seq<char>>::empty(),
            Err(m) => seq!["parse failed: "@ + m],
        });
    }
    report
}

/// Runs one source: from the fetch result, through parsing, handling and
/// export, to its report. Never fails: a failed fetch, a failed parse and
/// every record that could not be handled or written end up in the report.
pub fn run_source<W: OutputWriter>(
    kind: ExtractKind,
    fetched: &Result<String, String>,
    source: &SourceConfig,
    exporter: &mut Exporter<W>,
) -> (res: SourceReport)
    requires
        runnable(kind, *fetched, *source),
    ensures
        old(exporter).log().len() <= final(exporter).log().len(),
        final(exporter).log().take(old(exporter).log().len() as int) == old(exporter).log(),
        source_outcome(
            *source,
            fetched_view(*fetched),
            final(exporter).log().skip(old(exporter).log().len() as int),
            res@,
        ),
{
    match fetched {
        Err(m) => {
            let mut e = string_of("fetch failed: ");
            push_str(&mut e, m.as_str());
            let mut errors: Vec<String> = Vec::new();
            errors.push(e);
            let res = SourceReport { supplier: crate::text::copy_string(&source.name), records: 0, errors };
            assert(strings_view(res.errors@) =~= seq!["fetch failed: "@ + m@]);
            assert(exporter.log().skip(exporter.log().len() as int) =~= Seq::<ExportEntry>::empty());
            assert(exporter.log().take(exporter.log().len() as int) =~= exporter.log());
            res
        },
        Ok(content) => run_fetched(content, source, exporter),
    }
}

pub open spec fn reports_view(v: Seq<SourceReport>) -> Seq<SourceReportView> {
    v.map_values(|r: SourceReport| r@)
}

/// The rows handed to the writer while running source `i`, given the log
/// positions `cuts` at which each source's run began and ended.
pub open spec fn run_outcome(
    config: Config,
    fetched: Seq<Result<String, String>>,
    log: Seq<ExportEntry>,
    cuts: Seq<int>,
    reports: Seq<SourceReportView>,
) -> bool {
    let n = config.sources@.len();
    &&& cuts.len() == n + 1
    &&& reports.len() == n
    &&& cuts[n as int] == log.len()
    &&& forall|i: int| 0 <= i < n ==> 0 <= #[trigger] cuts[i] <= cuts[i + 1]
    &&& forall|i: int|
        0 <= i < n ==> source_outcome(
            config.sources@[i],
            fetched_view(fetched[i]),
            log.subrange(cuts[i], cuts[i + 1]),
            #[trigger] reports[i],
        )
}

/// Runs every source of `config` in order, given the result of fetching
/// each: one report per source, in the config's order, and no run-level
/// failure.
pub fn run_sources<W: OutputWriter>(
    kind: ExtractKind,
    config: &Config,
    fetched: &Vec<Result<String, String>>,
    exporter: &mut Exporter<W>,
) -> (res: RunResult)
    requires
        fetched@.len() == config.sources@.len(),
        forall|i: int| 0 <= i < fetched@.len() ==> runnable(kind, #[trigger] fetched@[i], config.sources@[i]),
    ensures
        res.program_errors@.len() == 0,
        old(exporter).log().len() <= final(exporter).log().len(),
        final(exporter).log().take(old(exporter).log().len() as int) == old(exporter).log(),
        exists|cuts: Seq<int>|
            #![trigger run_outcome(*config, fetched@, final(exporter).log(), cuts, reports_view(res.reports@))]
            cuts[0] == old(exporter).log().len() && run_outcome(
                *config,
                fetched@,
                final(exporter).log(),
                cuts,
                reports_view(res.reports@),
            ),
{
    let n = config.sources.len();
    let mut reports: Vec<SourceReport> = Vec::new();
    let ghost start = exporter.log();
    let ghost mut cuts: Seq<int> = seq![start.len() as int];
    let mut i: usize = 0;
    while i < n
        invariant
            n == config.sources@.len(),
            fetched@.len() == n,
            forall|j: int| 0 <= j < n ==> runnable(kind, #[trigger] fetched@[j], config.sources@[j]),
            i <= n,
            reports@.len() == i,
            cuts.len() == i + 1,
            cuts[0] == start.len(),
            cuts[i as int] == exporter.log().len(),
            start.len() <= exporter.log().len(),
            exporter.log().take(start.len() as int) == start,
            forall|j: int| 0 <= j < i ==> 0 <= #[trigger] cuts[j] <= cuts[j + 1],
            forall|j: int|
                0 <= j < i ==> source_outcome(
                    config.sources@[j],
                    fetched_view(fetched@[j]),
                    exporter.log().subrange(cuts[j], cuts[j + 1]),
                    #[trigger] reports@[j]@,
                ),
        decreases n - i,
    {
        let ghost log0 = exporter.log();
        let report = run_source(kind, &fetched[i], &config.sources[i], exporter);
        let ghost log1 = exporter.log();
        proof {
            assert forall|j: int| 0 <= j < i implies #[trigger] log1.subrange(cuts[j], cuts[j + 1])
                == log0.subrange(cuts[j], cuts[j + 1]) by {
                assert(cuts[j + 1] <= cuts[i as int]) by {
                    lemma_cuts_monotone(cuts, j + 1, i as int);
                }
                assert(log1.subrange(cuts[j], cuts[j + 1]) =~= log0.subrange(cuts[j], cuts[j + 1]));
            }
            assert(log1.subrange(log0.len() as int, log1.len() as int) =~= log1.skip(log0.len() as int));
            assert(log1.take(start.len() as int) =~= start) by {
                assert(log1.take(start.len() as int) =~= log1.take(log0.len() as int).take(start.len() as int));
            }
            cuts = cuts.push(log1.len() as int);
        }
        reports.push(report);
        i += 1;
    }
    let res = RunResult { reports, program_errors: Vec::new() };
    proof {
        let rv = reports_view(res.reports@);
        assert forall|j: int| 0 <= j < n implies source_outcome(
            config.sources@[j],
            fetched_view(fetched@[j]),
            exporter.log().subrange(cuts[j], cuts[j + 1]),
            #[trigger] rv[j],
        ) by {
            assert(rv[j] == res.reports@[j]@);
        }
        assert(run_outcome(*config, fetched@, exporter.log(), cuts, rv));
    }
    res
}

/// Only one report fits a source's run: its source, its fetch result and
/// what the writer answered for its rows decide it.
pub proof fn lemma_source_outcome_unique(
    source: SourceConfig,
    fetched: Result<Seq<char>, Seq<char>>,
    log: Seq<ExportEntry>,
    one: SourceReportView,
    other: SourceReportView,
)
    requires
        source_outcome(source, fetched, log, one),
        source_outcome(source, fetched, log, other),
    ensures
        one == other,
{
}

/// A source's report does not depend on the other sources of the run: run
/// alone, with the same fetch result and the same answers of the writer
/// for its rows, it gets the same report.
pub proof fn law_source_report_independent(
    config: Config,
    fetched: Seq<Result<String, String>>,
    log: Seq<ExportEntry>,
    cuts: Seq<int>,
    reports: Seq<SourceReportView>,
    alone: Config,
    fetched_alone: Seq<Result<String, String>>,
    log_alone: Seq<ExportEntry>,
    cuts_alone: Seq<int>,
    reports_alone: Seq<SourceReportView>,
    i: int,
)
    requires
        run_outcome(config, fetched, log, cuts, reports),
        run_outcome(alone, fetched_alone, log_alone, cuts_alone, reports_alone),
        0 <= i < config.sources@.len(),
        alone.sources@.len() == 1,
        alone.sources@[0] == config.sources@[i],
        fetched_alone[0] == fetched[i],
        log_alone.subrange(cuts_alone[0], cuts_alone[1]) == log.subrange(cuts[i], cuts[i + 1]),
    ensures
        reports_alone[0] == reports[i],
{
    assert(source_outcome(
        config.sources@[i],
        fetched_view(fetched[i]),
        log.subrange(cuts[i], cuts[i + 1]),
        reports[i],
    ));
    assert(source_outcome(
        alone.sources@[0],
        fetched_view(fetched_alone[0]),
        log_alone.subrange(cuts_alone[0], cuts_alone[1]),
        reports_alone[0],
    ));
    lemma_source_outcome_unique(
        config.sources@[i],
        fetched_view(fetched[i]),
        log.subrange(cuts[i], cuts[i + 1]),
        reports[i],
        reports_alone[0],
    );
}

/// A run of one kind, given the outcome of opening its output and the
/// result of fetching each source: when the output could not be opened, no
/// source is run and the run reports that failure alone; otherwise every
/// source is run in order, as `run_sources` does, and the output is handed
/// back.
pub fn run<W: OutputWriter>(
    kind: ExtractKind,
    config: &Config,
    fetched: &Vec<Result<String, String>>,
    opened: Result<Exporter<W>, String>,
) -> (res: (RunResult, Option<Exporter<W>>))
    requires
        opened is Ok ==> fetched@.len() == config.sources@.len(),
        opened is Ok ==> forall|i: int|
            0 <= i < fetched@.len() ==> runnable(kind, #[trigger] fetched@[i], config.sources@[i]),
    ensures
        opened is Err ==> res.1 is None && res.0.reports@.len() == 0,
        opened is Err ==> strings_view(res.0.program_errors@) == seq![
            kind.spec_label() + ": failed to open output file: "@ + opened->Err_0@,
        ],
        opened is Ok ==> res.1 is Some && res.0.program_errors@.len() == 0,
        opened is Ok ==> opened->Ok_0.log().len() <= res.1->Some_0.log().len(),
        opened is Ok ==> res.1->Some_0.log().take(opened->Ok_0.log().len() as int)
            == opened->Ok_0.log(),
        opened is Ok ==> exists|cuts: Seq<int>|
            #![trigger run_outcome(*config, fetched@, res.1->Some_0.log(), cuts, reports_view(res.0.reports@))]
            cuts[0] == opened->Ok_0.log().len() && run_outcome(
                *config,
                fetched@,
                res.1->Some_0.log(),
                cuts,
                reports_view(res.0.reports@),
            ),
{
    let ghost o = opened;
    match opened {
        Err(e) => {
            let es = e.as_str();
            let result = RunResult::output_failed(kind, es);
            assert(strings_view(result.program_errors@) =~= seq![
                kind.spec_label() + ": failed to open output file: "@ + e@,
            ]);
            (result, None)
        },
        Ok(exporter) => {
            let mut exporter = exporter;
            let ghost start = exporter.log();
            let result = run_sources(kind, config, fetched, &mut exporter);
            proof {
                let cuts = choose|cuts: Seq<int>|
                    cuts[0] == start.len() && run_outcome(
                        *config,
                        fetched@,
                        exporter.log(),
                        cuts,
                        reports_view(result.reports@),
                    );
                assert(cuts[0] == start.len());
                assert(run_outcome(*config, fetched@, exporter.log(), cuts, reports_view(result.reports@)));
                assert(o->Ok_0.log() == start);
            }
            let ghost rv = reports_view(result.reports@);
            let ghost log = exporter.log();
            let r: (RunResult, Option<Exporter<W>>) = (result, Some(exporter));
            assert(r.1->Some_0.log() == log);
            assert(reports_view(r.0.reports@) == rv);
            assert(exists|cuts: Seq<int>|
                #![trigger run_outcome(*config, fetched@, r.1->Some_0.log(), cuts, reports_view(r.0.reports@))]
                cuts[0] == o->Ok_0.log().len() && run_outcome(
                    *config,
                    fetched@,
                    r.1->Some_0.log(),
                    cuts,
                    reports_view(r.0.reports@),
                ));
            r
        },
    }
}

proof fn lemma_cuts_monotone(cuts: Seq<int>, a: int, b: int)
    requires
        0 <= a <= b < cuts.len(),
        forall|j: int| 0 <= j < b ==> #[trigger] cuts[j] <= cuts[j + 1],
    ensures
        cuts[a] <= cuts[b],
    decreases b - a,
{
    if a < b {
        lemma_cuts_monotone(cuts, a, b - 1);
        assert(cuts[b - 1] <= cuts[b]);
    }
}

impl RunResult {
    /// The result of a run whose output could not be opened: no reports,
    /// one run-level failure naming the kind.
    pub fn output_failed(kind: ExtractKind, err: &str) -> (res: RunResult)
        ensures
            res.reports@.len() == 0,
            strings_view(res.program_errors@) == seq![
                kind.spec_label() + ": failed to open output file: "@ + err@,
            ],
    {
        let mut m = string_of(kind.label());
        push_str(&mut m, ": failed to open output file: ");
        push_str(&mut m, err);
        let mut program_errors: Vec<String> = Vec::new();
        program_errors.push(m);
        let res = RunResult { reports: Vec::new(), program_errors };
        assert(strings_view(res.program_errors@) =~= seq![
            kind.spec_label() + ": failed to open output file: "@ + err@,
        ]);
        res
    }
}

} // verus!
