//! The report of a whole program run and the channel it is sent through.
//! The report is built here; sending it is the program's part.

pub mod email;

use vstd::prelude::*;
use crate::pipeline::{reports_view, strings_view, SourceReport, SourceReportView};
use email::{reporter_result_view, reporter_spec, EmailReporter, MailSettings};

verus! {

/// What a run tells a human: how long it took, one report per source, and
/// the failures that belong to no single source.
pub struct RunSummary {
    /// The run's duration, already written out by the program.
    pub elapsed: String,
    pub reports: Vec<SourceReport>,
    pub program_errors: Vec<String>,
}

pub struct RunSummaryView {
    pub elapsed: Seq<char>,
    pub reports: Seq<SourceReportView>,
    pub program_errors: Seq<Seq<char>>,
}

impl View for RunSummary {
    type V = RunSummaryView;

    open spec fn view(&self) -> RunSummaryView {
        RunSummaryView {
            elapsed: self.elapsed@,
            reports: reports_view(self.reports@),
            program_errors: strings_view(self.program_errors@),
        }
    }
}

/// One implementor per report channel. Sending is the channel's own
/// business; its failure comes back as a message.
pub trait Reporter {
    fn send(&self, summary: &RunSummary) -> Result<(), String>;
}

/// The report channel of the program: e-mail, configured by the values
/// read from the environment.
pub fn create_reporter(settings: MailSettings) -> (res: Result<EmailReporter, String>)
    ensures
        reporter_result_view(res) == reporter_spec(settings),
{
    EmailReporter::from_env(settings)
}

/// The sum of `f` over the reports.
pub open spec fn sum_by(reports: Seq<SourceReportView>, f: spec_fn(SourceReportView) -> nat) -> nat
    decreases reports.len(),
{
    if reports.len() == 0 {
        0
    } else {
        sum_by(reports.drop_last(), f) + f(reports.last())
    }
}

/// The records counted over all sources.
pub open spec fn total_records(reports: Seq<SourceReportView>) -> nat {
    sum_by(reports, |r: SourceReportView| r.records)
}

/// The errors listed over all sources.
pub open spec fn source_error_count(reports: Seq<SourceReportView>) -> nat {
    sum_by(reports, |r: SourceReportView| r.errors.len())
}

/// Every error of the run: those of the sources and those of the program.
pub open spec fn total_error_count(s: RunSummaryView) -> nat {
    source_error_count(s.reports) + s.program_errors.len()
}

/// The counts of a summary fit in a `usize`.
pub open spec fn summary_fits(s: RunSummaryView) -> bool {
    &&& total_records(s.reports) <= usize::MAX
    &&& total_error_count(s) <= usize::MAX
}

/// A sum over the first reports is at most the sum over all of them.
pub proof fn lemma_sum_by_prefix(reports: Seq<SourceReportView>, f: spec_fn(SourceReportView) -> nat, i: int)
    requires
        0 <= i <= reports.len(),
    ensures
        sum_by(reports.take(i), f) <= sum_by(reports, f),
    decreases reports.len(),
{
    if i < reports.len() {
        lemma_sum_by_prefix(reports.drop_last(), f, i);
        assert(reports.drop_last().take(i) =~= reports.take(i));
    } else {
        assert(reports.take(i) =~= reports);
    }
}

/// The records counted over all `reports`.
pub fn record_total(reports: &Vec<SourceReport>) -> (res: usize)
    requires
        total_records(reports_view(reports@)) <= usize::MAX,
    ensures
        res == total_records(reports_view(reports@)),
{
    let ghost rv = reports_view(reports@);
    let ghost f = |r: SourceReportView| r.records;
    let mut sum: usize = 0;
    let mut i: usize = 0;
    while i < reports.len()
        invariant
            i <= reports@.len(),
            rv == reports_view(reports@),
            f == (|r: SourceReportView| r.records),
            sum_by(rv, f) <= usize::MAX,
            sum == sum_by(rv.take(i as int), f),
        decreases reports@.len() - i,
    {
        proof {
            assert(rv.take(i + 1).drop_last() =~= rv.take(i as int));
            assert(rv.take(i + 1).last() == reports@[i as int]@);
            lemma_sum_by_prefix(rv, f, i + 1);
        }
        sum = sum + reports[i].records;
        i += 1;
    }
    assert(rv.take(i as int) =~= rv);
    sum
}

/// The errors listed over all `reports`.
pub fn source_error_total(reports: &Vec<SourceReport>) -> (res: usize)
    requires
        source_error_count(reports_view(reports@)) <= usize::MAX,
    ensures
        res == source_error_count(reports_view(reports@)),
{
    let ghost rv = reports_view(reports@);
    let ghost f = |r: SourceReportView| r.errors.len();
    let mut sum: usize = 0;
    let mut i: usize = 0;
    while i < reports.len()
        invariant
            i <= reports@.len(),
            rv == reports_view(reports@),
            f == (|r: SourceReportView| r.errors.len()),
            sum_by(rv, f) <= usize::MAX,
            sum == sum_by(rv.take(i as int), f),
        decreases reports@.len() - i,
    {
        proof {
            assert(rv.take(i + 1).drop_last() =~= rv.take(i as int));
            assert(rv.take(i + 1).last() == reports@[i as int]@);
            assert(reports@[i as int]@.errors.len() == reports@[i as int].errors@.len());
            lemma_sum_by_prefix(rv, f, i + 1);
        }
        sum = sum + reports[i].errors.len();
        i += 1;
    }
    assert(rv.take(i as int) =~= rv);
    sum
}

} // verus!
