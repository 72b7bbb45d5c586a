use jumakl_extractor::pipeline::SourceReport;
use jumakl_extractor::report::email::{
    render_html, render_program_errors, render_source, subject, EmailReporter, MailSettings,
    ReportTemplates,
};
use jumakl_extractor::report::{create_reporter, record_total, source_error_total, RunSummary};

fn report(name: &str, records: usize, errors: &[&str]) -> SourceReport {
    SourceReport { supplier: name.to_string(), records, errors: errors.iter().map(|e| e.to_string()).collect() }
}

fn summary(reports: Vec<SourceReport>, program_errors: &[&str]) -> RunSummary {
    RunSummary {
        elapsed: "1.50s".to_string(),
        reports,
        program_errors: program_errors.iter().map(|e| e.to_string()).collect(),
    }
}

fn settings(from: &str, to: &str) -> MailSettings {
    MailSettings {
        host: Ok("smtp.example.com".to_string()),
        username: Ok("user".to_string()),
        password: Ok("secret".to_string()),
        from: Ok(from.to_string()),
        to: Ok(to.to_string()),
    }
}

fn templates() -> ReportTemplates {
    ReportTemplates {
        report: Ok("[{{STATUS}}|{{STATUS_LABEL}}|{{ELAPSED}}|{{SOURCE_COUNT}}/{{RECORD_COUNT}}/{{ERROR_COUNT}}]{{PROGRAM_ERRORS}}{{SOURCES}}".to_string()),
        source: Ok("<{{SUPPLIER}}:{{RECORDS}}:{{ERROR_COUNT}}:{{STATUS}}{{ERRORS}}>".to_string()),
        program_errors: Ok("<p>{{ERRORS}}</p>".to_string()),
    }
}

#[test]
fn source_section_is_filled_and_escaped() {
    let t = "<div class=\"{{STATUS}}\">{{SUPPLIER}} {{RECORDS}} {{ERROR_COUNT}}{{ERRORS}}</div>";
    assert_eq!(render_source(t, &report("A&B", 3, &[])), "<div class=\"ok\">A&amp;B 3 0</div>");
    assert_eq!(
        render_source(t, &report("s", 0, &["x<y", "z"])),
        "<div class=\"err\">s 0 2<ul class=\"errors\"><li>x&lt;y</li><li>z</li></ul></div>"
    );
}

#[test]
fn program_errors_block_lists_each_error() {
    let errors = vec!["a & b".to_string(), "c".to_string()];
    assert_eq!(render_program_errors("<ul>{{ERRORS}}</ul>", &errors), "<ul><li>a &amp; b</li><li>c</li></ul>");
}

#[test]
fn totals_sum_over_sources() {
    let reports = vec![report("a", 3, &["e"]), report("b", 4, &["f", "g"])];
    assert_eq!(record_total(&reports), 7);
    assert_eq!(source_error_total(&reports), 3);
    assert_eq!(record_total(&Vec::new()), 0);
}

#[test]
fn body_of_a_clean_run() {
    let s = summary(vec![report("a", 2, &[]), report("b", 1, &[])], &[]);
    let t = templates();
    let html = render_html(&s, t.report.as_ref().unwrap(), t.source.as_ref().unwrap(), "unused {{ERRORS}}");
    assert_eq!(html, "[ok|All 2 source(s) completed without errors|1.50s|2/3/0]<a:2:0:ok><b:1:0:ok>");
    let other = render_html(&s, t.report.as_ref().unwrap(), t.source.as_ref().unwrap(), "different");
    assert_eq!(html, other);
}

#[test]
fn body_of_a_run_with_errors() {
    let s = summary(vec![report("a", 2, &["bad row"])], &["Price: failed to open output file: no"]);
    let t = templates();
    let html = render_html(&s, t.report.as_ref().unwrap(), t.source.as_ref().unwrap(), t.program_errors.as_ref().unwrap());
    assert_eq!(
        html,
        "[err|2 error(s) occurred (1 program, 1 across sources)|1.50s|1/2/1]\
         <p><li>Price: failed to open output file: no</li></p>\
         <a:2:1:err<ul class=\"errors\"><li>bad row</li></ul>>"
    );
}

#[test]
fn subject_counts_sources_and_all_errors() {
    let s = summary(vec![report("a", 2, &["x", "y"]), report("b", 0, &[])], &["z"]);
    assert_eq!(subject(&s), "Extraction report - 2 source(s), 3 error(s)");
    assert_eq!(subject(&summary(vec![], &[])), "Extraction report - 0 source(s), 0 error(s)");
}

#[test]
fn reporter_needs_every_variable() {
    let r = create_reporter(settings("a@example.com", "b@example.com")).ok().unwrap();
    assert_eq!(r.host(), "smtp.example.com");
    assert_eq!(r.username(), "user");
    assert_eq!(r.password(), "secret");
    let mut s = settings("a@example.com", "b@example.com");
    s.password = Err("environment variable not found".to_string());
    s.to = Err("environment variable not found".to_string());
    assert_eq!(
        create_reporter(s).err().unwrap(),
        "MAIL_PASSWORD not set in .env: environment variable not found"
    );
    let mut s = settings("a@example.com", "b@example.com");
    s.host = Err("gone".to_string());
    assert_eq!(EmailReporter::from_env(s).err().unwrap(), "MAIL_HOST not set in .env: gone");
}

#[test]
fn compose_builds_the_mail() {
    let r = create_reporter(settings("Reports <a@example.com>", "b@example.com")).ok().unwrap();
    let s = summary(vec![report("a", 1, &[])], &[]);
    let mut t = templates();
    t.program_errors = Err("not read".to_string());
    let mail = r.compose(&s, &t).ok().unwrap();
    assert_eq!(mail.from, "Reports <a@example.com>");
    assert_eq!(mail.to, "b@example.com");
    assert_eq!(mail.subject, "Extraction report - 1 source(s), 0 error(s)");
    assert_eq!(mail.html, "[ok|All 1 source(s) completed without errors|1.50s|1/1/0]<a:1:0:ok>");
}

#[test]
fn compose_checks_addresses_before_templates() {
    let s = summary(vec![], &[]);
    let mut t = templates();
    t.report = Err("No such file or directory (os error 2)".to_string());
    let bad_from = create_reporter(settings("not an address", "b@example.com")).ok().unwrap();
    let expected = format!(
        "invalid MAIL_FROM address: {}",
        "not an address".parse::<lettre::message::Mailbox>().unwrap_err()
    );
    assert_eq!(bad_from.compose(&s, &t).err().unwrap(), expected);
    let bad_to = create_reporter(settings("a@example.com", "@@")).ok().unwrap();
    assert!(bad_to.compose(&s, &t).err().unwrap().starts_with("invalid MAIL_TO address: "));
    let good = create_reporter(settings("a@example.com", "b@example.com")).ok().unwrap();
    assert_eq!(
        good.compose(&s, &t).err().unwrap(),
        "failed to read templates/report.html: No such file or directory (os error 2)"
    );
}

#[test]
fn compose_needs_program_errors_template_only_with_program_errors() {
    let good = create_reporter(settings("a@example.com", "b@example.com")).ok().unwrap();
    let mut t = templates();
    t.program_errors = Err("missing".to_string());
    let s = summary(vec![], &["boom"]);
    assert_eq!(good.compose(&s, &t).err().unwrap(), "failed to read templates/program_errors.html: missing");
    t.source = Err("gone".to_string());
    assert_eq!(good.compose(&s, &t).err().unwrap(), "failed to read templates/source.html: gone");
}
