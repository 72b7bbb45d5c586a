//! The e-mail channel: the addresses and credentials it is configured
//! with, and the message it sends, whose HTML body is filled into the
//! templates the program reads.

use vstd::prelude::*;
use crate::pipeline::{strings_view, SourceReport, SourceReportView};
use crate::text::{
    lacks, lemma_replace_lacking, lemma_replace_plain_prefix,
    html_escape, html_escape_spec, nat_text, push_str, replace_all, replace_spec, string_of,
    usize_to_string,
};
use super::{
    record_total, source_error_count, source_error_total, summary_fits, total_error_count,
    total_records, RunSummary, RunSummaryView,
};

verus! {

/// The word a status placeholder is filled with.
pub open spec fn status_word(ok: bool) -> Seq<char> {
    if ok {
        "ok"@
    } else {
        "err"@
    }
}

/// One `<li>` item per error, each escaped, in order.
pub open spec fn error_items(errors: Seq<Seq<char>>) -> Seq<char>
    decreases errors.len(),
{
    if errors.len() == 0 {
        Seq::empty()
    } else {
        error_items(errors.drop_last()) + "<li>"@ + html_escape_spec(errors.last()) + "</li>"@
    }
}

/// The error list of one source: nothing when it has none.
pub open spec fn source_errors_html(errors: Seq<Seq<char>>) -> Seq<char> {
    if errors.len() == 0 {
        Seq::empty()
    } else {
        "<ul class=\"errors\">"@ + error_items(errors) + "</ul>"@
    }
}

/// The section of one source: the template with its placeholders filled,
/// one after the other.
pub open spec fn render_source_spec(template: Seq<char>, r: SourceReportView) -> Seq<char> {
    let t1 = replace_spec(template, "{{SUPPLIER}}"@, html_escape_spec(r.supplier));
    let t2 = replace_spec(t1, "{{RECORDS}}"@, nat_text(r.records));
    let t3 = replace_spec(t2, "{{ERROR_COUNT}}"@, nat_text(r.errors.len()));
    let t4 = replace_spec(t3, "{{STATUS}}"@, status_word(r.errors.len() == 0));
    replace_spec(t4, "{{ERRORS}}"@, source_errors_html(r.errors))
}

/// The sections of all sources, in order.
pub open spec fn sources_html(template: Seq<char>, reports: Seq<SourceReportView>) -> Seq<char>
    decreases reports.len(),
{
    if reports.len() == 0 {
        Seq::empty()
    } else {
        sources_html(template, reports.drop_last()) + render_source_spec(template, reports.last())
    }
}

/// The block of run-level errors.
pub open spec fn render_program_errors_spec(template: Seq<char>, errors: Seq<Seq<char>>) -> Seq<char> {
    replace_spec(template, "{{ERRORS}}"@, error_items(errors))
}

/// The sentence that sums up a run.
pub open spec fn status_label_spec(sources: nat, program: nat, source_errors: nat) -> Seq<char> {
    if program + source_errors == 0 {
        "All "@ + nat_text(sources) + " source(s) completed without errors"@
    } else {
        nat_text(program + source_errors) + " error(s) occurred ("@ + nat_text(program)
            + " program, "@ + nat_text(source_errors) + " across sources)"@
    }
}

/// The HTML body of the report: the report template with its placeholders
/// filled, one after the other. The run-level block is empty when there
/// are no run-level errors, and its template is then not used.
pub open spec fn render_html_spec(
    s: RunSummaryView,
    report_template: Seq<char>,
    source_template: Seq<char>,
    program_errors_template: Seq<char>,
) -> Seq<char> {
    let se = source_error_count(s.reports);
    let program = s.program_errors.len();
    let program_html = if program == 0 {
        Seq::empty()
    } else {
        render_program_errors_spec(program_errors_template, s.program_errors)
    };
    let t1 = replace_spec(report_template, "{{ELAPSED}}"@, s.elapsed);
    let t2 = replace_spec(t1, "{{STATUS}}"@, status_word(se + program == 0));
    let t3 = replace_spec(t2, "{{STATUS_LABEL}}"@, status_label_spec(s.reports.len(), program, se));
    let t4 = replace_spec(t3, "{{PROGRAM_ERRORS}}"@, program_html);
    let t5 = replace_spec(t4, "{{SOURCE_COUNT}}"@, nat_text(s.reports.len()));
    let t6 = replace_spec(t5, "{{RECORD_COUNT}}"@, nat_text(total_records(s.reports)));
    let t7 = replace_spec(t6, "{{ERROR_COUNT}}"@, nat_text(se));
    replace_spec(t7, "{{SOURCES}}"@, sources_html(source_template, s.reports))
}

/// The subject line of the report e-mail.
pub open spec fn subject_spec(s: RunSummaryView) -> Seq<char> {
    "Extraction report - "@ + nat_text(s.reports.len()) + " source(s), "@ + nat_text(
        total_error_count(s),
    ) + " error(s)"@
}

/// `{{STATUS}}` followed by text without `{` survives replacing a pattern
/// that starts with `{{` and differs from it at its third character.
proof fn lemma_status_placeholder_survives(b: Seq<char>, p: Seq<char>, r: Seq<char>)
    requires
        lacks(b, '{'),
        p.len() >= 3,
        p[0] == '{',
        p[1] == '{',
        p[2] != 'S',
    ensures
        replace_spec("{{STATUS}}"@ + b, p, r) == "{{STATUS}}"@ + b,
{
    reveal_strlit("{{STATUS}}");
    let t = "{{STATUS}}"@ + b;
    let rest = t.drop_first();
    let tail = rest.drop_first();
    assert(tail =~= "STATUS}}"@ + b) by {
        reveal_strlit("STATUS}}");
    }
    reveal_strlit("STATUS}}");
    assert(lacks(tail, p[0])) by {
        assert forall|i: int| 0 <= i < tail.len() implies tail[i] != p[0] by {
            if i >= 8 {
                assert(tail[i] == b[i - 8]);
            }
        }
    }
    lemma_replace_lacking(tail, p, r);
    if rest.len() >= p.len() {
        assert(rest.take(p.len() as int)[1] == 'S');
        assert(rest.take(p.len() as int) != p);
        assert(replace_spec(rest, p, r) == seq![rest[0]] + replace_spec(tail, p, r));
    }
    assert(seq![rest[0]] + tail =~= rest);
    if t.len() >= p.len() {
        assert(t.take(p.len() as int)[2] == 'S');
        assert(t.take(p.len() as int) != p);
        assert(replace_spec(t, p, r) == seq![t[0]] + replace_spec(rest, p, r));
    }
    assert(seq![t[0]] + rest =~= t);
}

/// The status filled into the report body is `ok` exactly when the run had
/// no error at all, run-level errors included, and `err` otherwise: in a
/// report template that holds `{{STATUS}}` and no other `{`, the body is the
/// template with that word in its place.
pub proof fn law_status_fill(
    s: RunSummaryView,
    before: Seq<char>,
    after: Seq<char>,
    source_template: Seq<char>,
    program_errors_template: Seq<char>,
)
    requires
        lacks(before, '{'),
        lacks(after, '{'),
    ensures
        render_html_spec(s, before + "{{STATUS}}"@ + after, source_template, program_errors_template)
            == before + (if total_error_count(s) == 0 {
            "ok"@
        } else {
            "err"@
        }) + after,
{
    reveal_strlit("{{ELAPSED}}");
    reveal_strlit("{{STATUS}}");
    reveal_strlit("{{STATUS_LABEL}}");
    reveal_strlit("{{PROGRAM_ERRORS}}");
    reveal_strlit("{{SOURCE_COUNT}}");
    reveal_strlit("{{RECORD_COUNT}}");
    reveal_strlit("{{ERROR_COUNT}}");
    reveal_strlit("{{SOURCES}}");
    reveal_strlit("ok");
    reveal_strlit("err");
    let status = "{{STATUS}}"@;
    let template = before + status + after;
    let word: Seq<char> = if total_error_count(s) == 0 {
        "ok"@
    } else {
        "err"@
    };
    let se = source_error_count(s.reports);
    let program = s.program_errors.len();
    assert(status_word(se + program == 0) == word);
    // {{ELAPSED}} does not occur.
    assert(template =~= before + (status + after));
    lemma_replace_plain_prefix(before, status + after, "{{ELAPSED}}"@, s.elapsed);
    lemma_status_placeholder_survives(after, "{{ELAPSED}}"@, s.elapsed);
    let t1 = replace_spec(template, "{{ELAPSED}}"@, s.elapsed);
    assert(t1 == template);
    // {{STATUS}} is replaced by the word.
    lemma_replace_plain_prefix(before, status + after, status, word);
    let sa = status + after;
    assert(sa.take(status.len() as int) =~= status);
    assert(sa.skip(status.len() as int) =~= after);
    lemma_replace_lacking(after, status, word);
    let t2 = replace_spec(t1, status, status_word(se + program == 0));
    assert(t2 =~= before + word + after);
    // No `{` is left, so the other placeholders change nothing.
    assert(lacks(word, '{'));
    assert(lacks(t2, '{')) by {
        assert forall|i: int| 0 <= i < t2.len() implies t2[i] != '{' by {
            if i < before.len() {
                assert(t2[i] == before[i]);
            } else if i < before.len() + word.len() {
                assert(t2[i] == word[i - before.len()]);
            } else {
                assert(t2[i] == after[i - before.len() - word.len()]);
            }
        }
    }
    let program_html = if program == 0 {
        Seq::empty()
    } else {
        render_program_errors_spec(program_errors_template, s.program_errors)
    };
    lemma_replace_lacking(t2, "{{STATUS_LABEL}}"@, status_label_spec(s.reports.len(), program, se));
    lemma_replace_lacking(t2, "{{PROGRAM_ERRORS}}"@, program_html);
    lemma_replace_lacking(t2, "{{SOURCE_COUNT}}"@, nat_text(s.reports.len()));
    lemma_replace_lacking(t2, "{{RECORD_COUNT}}"@, nat_text(total_records(s.reports)));
    lemma_replace_lacking(t2, "{{ERROR_COUNT}}"@, nat_text(se));
    lemma_replace_lacking(t2, "{{SOURCES}}"@, sources_html(source_template, s.reports));
}

/// Without run-level errors the body does not depend on the template of
/// the run-level errors.
pub proof fn law_program_errors_template_unused(
    s: RunSummaryView,
    report_template: Seq<char>,
    source_template: Seq<char>,
    one: Seq<char>,
    other: Seq<char>,
)
    requires
        s.program_errors.len() == 0,
    ensures
        render_html_spec(s, report_template, source_template, one) == render_html_spec(
            s,
            report_template,
            source_template,
            other,
        ),
{
}

/// The report's status reads `ok` exactly when the run had no error at
/// all, of a source or of the program.
pub proof fn law_status_ok_iff_no_errors(s: RunSummaryView)
    ensures
        (status_word(source_error_count(s.reports) + s.program_errors.len() == 0) == "ok"@)
            <==> total_error_count(s) == 0,
{
    reveal_strlit("ok");
    reveal_strlit("err");
    assert("ok"@.len() != "err"@.len());
}

/// Appends one escaped `<li>` item per error.
fn push_error_items(out: &mut String, errors: &Vec<String>)
    ensures
        final(out)@ == old(out)@ + error_items(strings_view(errors@)),
{
    let ghost start = out@;
    let ghost ev = strings_view(errors@);
    let mut i: usize = 0;
    while i < errors.len()
        invariant
            i <= errors@.len(),
            ev == strings_view(errors@),
            out@ == start + error_items(ev.take(i as int)),
        decreases errors@.len() - i,
    {
        let ghost before = out@;
        push_str(out, "<li>");
        let escaped = html_escape(errors[i].as_str());
        push_str(out, escaped.as_str());
        push_str(out, "</li>");
        proof {
            let t = ev.take(i + 1);
            assert(t.drop_last() =~= ev.take(i as int));
            assert(t.last() == errors@[i as int]@);
            assert(out@ =~= start + error_items(t));
        }
        i += 1;
    }
    assert(ev.take(i as int) =~= ev);
}

/// The error list of one source.
fn errors_list(errors: &Vec<String>) -> (res: String)
    ensures
        res@ == source_errors_html(strings_view(errors@)),
{
    if errors.len() == 0 {
        String::new()
    } else {
        let mut out = string_of("<ul class=\"errors\">");
        push_error_items(&mut out, errors);
        push_str(&mut out, "</ul>");
        out
    }
}

/// Fills the section template of one source: its escaped name, its record
/// and error counts, its status and its list of errors.
pub fn render_source(template: &str, report: &SourceReport) -> (res: String)
    ensures
        res@ == render_source_spec(template@, report@),
{
    proof {
        reveal_strlit("{{SUPPLIER}}");
        reveal_strlit("{{RECORDS}}");
        reveal_strlit("{{ERROR_COUNT}}");
        reveal_strlit("{{STATUS}}");
        reveal_strlit("{{ERRORS}}");
    }
    let supplier = html_escape(report.supplier.as_str());
    let t1 = replace_all(template, "{{SUPPLIER}}", supplier.as_str());
    let records = usize_to_string(report.records);
    let t2 = replace_all(t1.as_str(), "{{RECORDS}}", records.as_str());
    let count = usize_to_string(report.errors.len());
    let t3 = replace_all(t2.as_str(), "{{ERROR_COUNT}}", count.as_str());
    let status = if report.errors.len() == 0 {
        "ok"
    } else {
        "err"
    };
    let t4 = replace_all(t3.as_str(), "{{STATUS}}", status);
    let errors_html = errors_list(&report.errors);
    replace_all(t4.as_str(), "{{ERRORS}}", errors_html.as_str())
}

/// Fills the template of the run-level errors with one item per error.
pub fn render_program_errors(template: &str, errors: &Vec<String>) -> (res: String)
    ensures
        res@ == render_program_errors_spec(template@, strings_view(errors@)),
{
    proof {
        reveal_strlit("{{ERRORS}}");
    }
    let mut items = String::new();
    push_error_items(&mut items, errors);
    replace_all(template, "{{ERRORS}}", items.as_str())
}

/// The sentence that sums up a run.
fn status_label(sources: usize, program: usize, source_errors: usize) -> (res: String)
    requires
        program + source_errors <= usize::MAX,
    ensures
        res@ == status_label_spec(sources as nat, program as nat, source_errors as nat),
{
    if program + source_errors == 0 {
        let mut out = string_of("All ");
        push_str(&mut out, usize_to_string(sources).as_str());
        push_str(&mut out, " source(s) completed without errors");
        out
    } else {
        let mut out = usize_to_string(program + source_errors);
        push_str(&mut out, " error(s) occurred (");
        push_str(&mut out, usize_to_string(program).as_str());
        push_str(&mut out, " program, ");
        push_str(&mut out, usize_to_string(source_errors).as_str());
        push_str(&mut out, " across sources)");
        out
    }
}

/// The HTML body of the report. The template of the run-level errors is
/// only used when there are any.
pub fn render_html(
    summary: &RunSummary,
    report_template: &str,
    source_template: &str,
    program_errors_template: &str,
) -> (res: String)
    requires
        summary_fits(summary@),
    ensures
        res@ == render_html_spec(
            summary@,
            report_template@,
            source_template@,
            program_errors_template@,
        ),
{
    proof {
        reveal_strlit("{{ELAPSED}}");
        reveal_strlit("{{STATUS}}");
        reveal_strlit("{{STATUS_LABEL}}");
        reveal_strlit("{{PROGRAM_ERRORS}}");
        reveal_strlit("{{SOURCE_COUNT}}");
        reveal_strlit("{{RECORD_COUNT}}");
        reveal_strlit("{{ERROR_COUNT}}");
        reveal_strlit("{{SOURCES}}");
    }
    let ghost s = summary@;
    let total_records = record_total(&summary.reports);
    let source_errors = source_error_total(&summary.reports);
    let program = summary.program_errors.len();
    let mut sources = String::new();
    let mut i: usize = 0;
    while i < summary.reports.len()
        invariant
            i <= summary.reports@.len(),
            s == summary@,
            sources@ == sources_html(source_template@, s.reports.take(i as int)),
        decreases summary.reports@.len() - i,
    {
        let section = render_source(source_template, &summary.reports[i]);
        push_str(&mut sources, section.as_str());
        proof {
            let t = s.reports.take(i + 1);
            assert(t.drop_last() =~= s.reports.take(i as int));
            assert(t.last() == summary.reports@[i as int]@);
        }
        i += 1;
    }
    assert(s.reports.take(i as int) =~= s.reports);
    let program_html = if program == 0 {
        String::new()
    } else {
        render_program_errors(program_errors_template, &summary.program_errors)
    };
    let status = if source_errors + program == 0 {
        "ok"
    } else {
        "err"
    };
    let label = status_label(summary.reports.len(), program, source_errors);
    let source_count = usize_to_string(summary.reports.len());
    let record_count = usize_to_string(total_records);
    let error_count = usize_to_string(source_errors);
    let t1 = replace_all(report_template, "{{ELAPSED}}", summary.elapsed.as_str());
    let t2 = replace_all(t1.as_str(), "{{STATUS}}", status);
    let t3 = replace_all(t2.as_str(), "{{STATUS_LABEL}}", label.as_str());
    let t4 = replace_all(t3.as_str(), "{{PROGRAM_ERRORS}}", program_html.as_str());
    let t5 = replace_all(t4.as_str(), "{{SOURCE_COUNT}}", source_count.as_str());
    let t6 = replace_all(t5.as_str(), "{{RECORD_COUNT}}", record_count.as_str());
    let t7 = replace_all(t6.as_str(), "{{ERROR_COUNT}}", error_count.as_str());
    replace_all(t7.as_str(), "{{SOURCES}}", sources.as_str())
}

/// The subject line of the report e-mail.
pub fn subject(summary: &RunSummary) -> (res: String)
    requires
        summary_fits(summary@),
    ensures
        res@ == subject_spec(summary@),
{
    let total = source_error_total(&summary.reports) + summary.program_errors.len();
    let mut out = string_of("Extraction report - ");
    push_str(&mut out, usize_to_string(summary.reports.len()).as_str());
    push_str(&mut out, " source(s), ");
    push_str(&mut out, usize_to_string(total).as_str());
    push_str(&mut out, " error(s)");
    out
}

/// What `lettre` makes of `s` as a mailbox (`s.parse::<lettre::message::Mailbox>()`):
/// accepted, or refused with the text of its `AddressError`. It depends on
/// `s` alone.
pub uninterp spec fn mailbox_parse(s: Seq<char>) -> Result<(), Seq<char>>;

pub open spec fn unit_result_view(r: Result<(), String>) -> Result<(), Seq<char>> {
    match r {
        Ok(()) => Ok(()),
        Err(e) => Err(e@),
    }
}

/// Parses `s` as a `lettre::message::Mailbox`: `Ok` where `lettre`
/// accepts it, else the `Display` text of the `AddressError` it gave.
#[verifier::external_body]
fn parse_mailbox(s: &str) -> (res: Result<(), String>)
    ensures
        unit_result_view(res) == mailbox_parse(s@),
{
    match s.parse::<lettre::message::Mailbox>() {
        Ok(_) => Ok(()),
        Err(e) => Err(e.to_string()),
    }
}

/// The settings of the e-mail channel: the SMTP relay, its credentials, and
/// the sender and recipient of the report.
pub struct EmailReporter {
    host: String,
    username: String,
    password: String,
    from: String,
    to: String,
}

pub struct EmailReporterView {
    pub host: Seq<char>,
    pub username: Seq<char>,
    pub password: Seq<char>,
    pub from: Seq<char>,
    pub to: Seq<char>,
}

impl View for EmailReporter {
    type V = EmailReporterView;

    closed spec fn view(&self) -> EmailReporterView {
        EmailReporterView {
            host: self.host@,
            username: self.username@,
            password: self.password@,
            from: self.from@,
            to: self.to@,
        }
    }
}

/// The settings read from the environment, each as what reading its
/// variable gave: the value, or why it could not be read.
pub struct MailSettings {
    pub host: Result<String, String>,
    pub username: Result<String, String>,
    pub password: Result<String, String>,
    pub from: Result<String, String>,
    pub to: Result<String, String>,
}

pub open spec fn setting_view(r: Result<String, String>) -> Result<Seq<char>, Seq<char>> {
    match r {
        Ok(v) => Ok(v@),
        Err(e) => Err(e@),
    }
}

/// The message for a variable that could not be read.
pub open spec fn not_set_message(name: Seq<char>, err: Seq<char>) -> Seq<char> {
    name + " not set in .env: "@ + err
}

/// The channel the settings give, or the message for the first variable,
/// in the order host, username, password, sender, recipient, that could not
/// be read.
pub open spec fn reporter_spec(settings: MailSettings) -> Result<EmailReporterView, Seq<char>> {
    match (
        setting_view(settings.host),
        setting_view(settings.username),
        setting_view(settings.password),
        setting_view(settings.from),
        setting_view(settings.to),
    ) {
        (Err(e), _, _, _, _) => Err(not_set_message("MAIL_HOST"@, e)),
        (Ok(_), Err(e), _, _, _) => Err(not_set_message("MAIL_USERNAME"@, e)),
        (Ok(_), Ok(_), Err(e), _, _) => Err(not_set_message("MAIL_PASSWORD"@, e)),
        (Ok(_), Ok(_), Ok(_), Err(e), _) => Err(not_set_message("MAIL_FROM"@, e)),
        (Ok(_), Ok(_), Ok(_), Ok(_), Err(e)) => Err(not_set_message("MAIL_TO"@, e)),
        (Ok(host), Ok(username), Ok(password), Ok(from), Ok(to)) => Ok(
            EmailReporterView { host, username, password, from, to },
        ),
    }
}

pub open spec fn reporter_result_view(r: Result<EmailReporter, String>) -> Result<EmailReporterView, Seq<char>> {
    match r {
        Ok(v) => Ok(v@),
        Err(e) => Err(e@),
    }
}

fn not_set(name: &str, err: &String) -> (res: String)
    ensures
        res@ == not_set_message(name@, err@),
{
    let mut m = string_of(name);
    push_str(&mut m, " not set in .env: ");
    push_str(&mut m, err.as_str());
    m
}

/// The report e-mail, ready to be sent.
pub struct ReportMail {
    pub from: String,
    pub to: String,
    pub subject: String,
    pub html: String,
}

pub struct ReportMailView {
    pub from: Seq<char>,
    pub to: Seq<char>,
    pub subject: Seq<char>,
    pub html: Seq<char>,
}

pub open spec fn mail_result_view(r: Result<ReportMail, String>) -> Result<ReportMailView, Seq<char>> {
    match r {
        Ok(m) => Ok(
            ReportMailView { from: m.from@, to: m.to@, subject: m.subject@, html: m.html@ },
        ),
        Err(e) => Err(e@),
    }
}

/// The three templates of the body, each as what reading its file gave:
/// the text, or why it could not be read.
pub struct ReportTemplates {
    pub report: Result<String, String>,
    pub source: Result<String, String>,
    pub program_errors: Result<String, String>,
}

/// The message of the e-mail for `s`, or why it cannot be built: the
/// sender's address is checked first, then the recipient's, then the
/// templates are needed in the order report, source, and run-level errors,
/// the last only when there are run-level errors.
pub open spec fn compose_spec(
    r: EmailReporterView,
    s: RunSummaryView,
    report: Result<Seq<char>, Seq<char>>,
    source: Result<Seq<char>, Seq<char>>,
    program_errors: Result<Seq<char>, Seq<char>>,
) -> Result<ReportMailView, Seq<char>> {
    match (mailbox_parse(r.from), mailbox_parse(r.to)) {
        (Err(e), _) => Err("invalid MAIL_FROM address: "@ + e),
        (Ok(()), Err(e)) => Err("invalid MAIL_TO address: "@ + e),
        (Ok(()), Ok(())) => match (report, source) {
            (Err(e), _) => Err("failed to read templates/report.html: "@ + e),
            (Ok(_), Err(e)) => Err("failed to read templates/source.html: "@ + e),
            (Ok(rt), Ok(st)) => {
                let mail = |pt: Seq<char>|
                    ReportMailView {
                        from: r.from,
                        to: r.to,
                        subject: subject_spec(s),
                        html: render_html_spec(s, rt, st, pt),
                    };
                if s.program_errors.len() == 0 {
                    Ok(mail(Seq::empty()))
                } else {
                    match program_errors {
                        Err(e) => Err("failed to read templates/program_errors.html: "@ + e),
                        Ok(pt) => Ok(mail(pt)),
                    }
                }
            },
        },
    }
}

fn prefixed(prefix: &str, err: &String) -> (res: String)
    ensures
        res@ == prefix@ + err@,
{
    let mut m = string_of(prefix);
    push_str(&mut m, err.as_str());
    m
}

impl EmailReporter {
    /// The e-mail channel configured by the values read from the
    /// environment; the first variable that could not be read is reported.
    pub fn from_env(settings: MailSettings) -> (res: Result<EmailReporter, String>)
        ensures
            reporter_result_view(res) == reporter_spec(settings),
    {
        let MailSettings { host, username, password, from, to } = settings;
        let host = match host {
            Ok(v) => v,
            Err(e) => return Err(not_set("MAIL_HOST", &e)),
        };
        let username = match username {
            Ok(v) => v,
            Err(e) => return Err(not_set("MAIL_USERNAME", &e)),
        };
        let password = match password {
            Ok(v) => v,
            Err(e) => return Err(not_set("MAIL_PASSWORD", &e)),
        };
        let from = match from {
            Ok(v) => v,
            Err(e) => return Err(not_set("MAIL_FROM", &e)),
        };
        let to = match to {
            Ok(v) => v,
            Err(e) => return Err(not_set("MAIL_TO", &e)),
        };
        Ok(EmailReporter { host, username, password, from, to })
    }

    /// The SMTP relay.
    pub fn host(&self) -> (res: &str)
        ensures
            res@ == self@.host,
    {
        self.host.as_str()
    }

    /// The user name for the relay.
    pub fn username(&self) -> (res: &str)
        ensures
            res@ == self@.username,
    {
        self.username.as_str()
    }

    /// The password for the relay.
    pub fn password(&self) -> (res: &str)
        ensures
            res@ == self@.password,
    {
        self.password.as_str()
    }

    /// The report e-mail for `summary`: the subject counts the sources and
    /// all errors, the body is the filled report template.
    pub fn compose(&self, summary: &RunSummary, templates: &ReportTemplates) -> (res: Result<
        ReportMail,
        String,
    >)
        requires
            summary_fits(summary@),
        ensures
            mail_result_view(res) == compose_spec(
                self@,
                summary@,
                setting_view(templates.report),
                setting_view(templates.source),
                setting_view(templates.program_errors),
            ),
    {
        match parse_mailbox(self.from.as_str()) {
            Err(e) => return Err(prefixed("invalid MAIL_FROM address: ", &e)),
            Ok(()) => {},
        }
        match parse_mailbox(self.to.as_str()) {
            Err(e) => return Err(prefixed("invalid MAIL_TO address: ", &e)),
            Ok(()) => {},
        }
        let report = match &templates.report {
            Err(e) => return Err(prefixed("failed to read templates/report.html: ", e)),
            Ok(t) => t,
        };
        let source = match &templates.source {
            Err(e) => return Err(prefixed("failed to read templates/source.html: ", e)),
            Ok(t) => t,
        };
        let html = if summary.program_errors.len() == 0 {
            render_html(summary, report.as_str(), source.as_str(), "")
        } else {
            match &templates.program_errors {
                Err(e) => return Err(prefixed("failed to read templates/program_errors.html: ", e)),
                Ok(t) => render_html(summary, report.as_str(), source.as_str(), t.as_str()),
            }
        };
        proof {
            if summary.program_errors@.len() == 0 {
                assert(render_html_spec(summary@, report@, source@, ""@) == render_html_spec(
                    summary@,
                    report@,
                    source@,
                    Seq::empty(),
                ));
            }
        }
        Ok(
            ReportMail {
                from: string_of(self.from.as_str()),
                to: string_of(self.to.as_str()),
                subject: subject(summary),
                html,
            },
        )
    }
}

} // verus!
