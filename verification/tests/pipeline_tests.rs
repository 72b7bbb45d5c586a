use jumakl_extractor::cli::ExtractKind;
use jumakl_extractor::config::{Config, FieldMapping, FieldType, FormatConfig, SourceConfig, XmlConfig, XmlOptions};
use jumakl_extractor::output::csv::{PriceCsvWriter, StockCsvWriter};
use jumakl_extractor::output::{Exporter, OutputWriter, WriteRow};
use jumakl_extractor::pipeline::price::PriceHandler;
use jumakl_extractor::pipeline::stock::StockHandler;
use jumakl_extractor::pipeline::{run, run_source, RunResult};
use jumakl_extractor::sources::{DecimalText, Record, RecordValue};

/// Collects the lines a stock CSV writer would write; fails on chosen EANs.
struct LineWriter {
    csv: StockCsvWriter,
    lines: Vec<String>,
    fail_on: Vec<String>,
}

impl OutputWriter for LineWriter {
    fn write_record(&mut self, ean: &str, row: &WriteRow, shortname: &str, prefix: &str) -> Result<(), String> {
        if self.fail_on.iter().any(|e| e == ean) {
            return Err("disk full".to_string());
        }
        let line = self.csv.format_record(ean, row, shortname, prefix)?;
        self.lines.push(line);
        Ok(())
    }
}

fn writer(fail_on: &[&str]) -> Exporter<LineWriter> {
    Exporter::new(LineWriter {
        csv: StockCsvWriter::with_date("01.02.2024"),
        lines: Vec::new(),
        fail_on: fail_on.iter().map(|s| s.to_string()).collect(),
    })
}

fn field(name: &str, selector: &str, field_type: FieldType) -> (String, FieldMapping) {
    (name.to_string(), FieldMapping { selector: selector.to_string(), field_type })
}

fn source(name: &str, fields: Vec<(String, FieldMapping)>) -> SourceConfig {
    SourceConfig {
        name: name.to_string(),
        url: "http://example.invalid".to_string(),
        shortname: "SUP".to_string(),
        prefix: "X".to_string(),
        auth: None,
        fields,
        format_config: FormatConfig::Xml(XmlConfig { xml: XmlOptions { record_tag: "item".to_string() } }),
    }
}

fn stock_source(name: &str) -> SourceConfig {
    source(name, vec![field("ean", "code", FieldType::String), field("stock", "qty", FieldType::Integer)])
}

#[test]
fn failed_fetch_still_reports() {
    let mut exporter = writer(&[]);
    let report = run_source(ExtractKind::Price, &Err("timed out".to_string()), &stock_source("acme"), &mut exporter);
    assert_eq!(report.supplier, "acme");
    assert_eq!(report.records, 0);
    assert_eq!(report.errors, vec!["fetch failed: timed out".to_string()]);
    assert!(exporter.into_writer().lines.is_empty());
}

#[test]
fn stock_records_are_exported_in_order() {
    let mut exporter = writer(&[]);
    let content = "<f><item><code>111</code><qty>5</qty></item><item><code>222</code><qty>-1</qty></item></f>".to_string();
    let report = run_source(ExtractKind::Stock, &Ok(content), &stock_source("acme"), &mut exporter);
    assert_eq!(report.records, 2);
    assert!(report.errors.is_empty());
    assert_eq!(
        exporter.into_writer().lines,
        vec!["SUP;X - 111;5;01.02.2024".to_string(), "SUP;X - 222;-1;01.02.2024".to_string()]
    );
}

#[test]
fn write_failures_and_parse_failures_are_recorded() {
    let mut exporter = writer(&["222"]);
    let content = "<f><item><code>111</code><qty>5</qty></item><item><code>222</code><qty>6</qty></item>\
                   <item><code>333</code><qty>7</qty></item><item><code>444</code><qty>?</qty></item></f>"
        .to_string();
    let report = run_source(ExtractKind::Stock, &Ok(content), &stock_source("acme"), &mut exporter);
    assert_eq!(report.records, 3);
    assert_eq!(
        report.errors,
        vec![
            "write failed (source=acme) (ean=222): disk full".to_string(),
            "parse failed: invalid digit found in string".to_string(),
        ]
    );
    assert_eq!(exporter.into_writer().lines.len(), 2);
}

#[test]
fn price_values_in_a_stock_run_are_handle_failures() {
    let mut exporter = writer(&[]);
    let src = source("mixed", vec![field("ean", "code", FieldType::String), field("price", "p", FieldType::Decimal)]);
    let content = "<f><item><code>9</code><p>1.5</p></item></f>".to_string();
    let report = run_source(ExtractKind::Stock, &Ok(content), &src, &mut exporter);
    assert_eq!(report.records, 1);
    assert_eq!(report.errors, vec!["handle failed (ean=9): StockHandler received a non-stock record".to_string()]);
    assert!(exporter.into_writer().lines.is_empty());
}

#[test]
fn run_reports_every_source_in_order() {
    let config = Config { sources: vec![stock_source("a"), stock_source("b"), stock_source("c")] };
    let fetched = vec![
        Ok("<f><item><code>1</code><qty>1</qty></item></f>".to_string()),
        Err("404".to_string()),
        Ok("<f></f>".to_string()),
    ];
    let (result, exporter) = run(ExtractKind::Stock, &config, &fetched, Ok(writer(&[])));
    let exporter = exporter.unwrap();
    assert!(result.program_errors.is_empty());
    let names: Vec<&str> = result.reports.iter().map(|r| r.supplier.as_str()).collect();
    assert_eq!(names, vec!["a", "b", "c"]);
    assert_eq!(result.reports[0].records, 1);
    assert_eq!(result.reports[1].errors, vec!["fetch failed: 404".to_string()]);
    assert_eq!(result.reports[2].records, 0);
    assert!(result.reports[2].errors.is_empty());
    assert_eq!(exporter.into_writer().lines, vec!["SUP;X - 1;1;01.02.2024".to_string()]);
}

#[test]
fn run_without_output_runs_no_source() {
    let config = Config { sources: vec![stock_source("a"), stock_source("b")] };
    let opened: Result<Exporter<LineWriter>, String> = Err("Permission denied (os error 13)".to_string());
    let (result, exporter) = run(ExtractKind::Price, &config, &Vec::new(), opened);
    assert!(exporter.is_none());
    assert!(result.reports.is_empty());
    assert_eq!(result.program_errors, vec!["Price: failed to open output file: Permission denied (os error 13)".to_string()]);
}

#[test]
fn output_failure_is_a_program_error() {
    let result = RunResult::output_failed(ExtractKind::Stock, "permission denied");
    assert!(result.reports.is_empty());
    assert_eq!(result.program_errors, vec!["Stock: failed to open output file: permission denied".to_string()]);
}

#[test]
fn stock_handler_counts_and_passes_stock_through() {
    let mut h = StockHandler::default();
    let r = Record { ean: "1".to_string(), value: RecordValue::Stock(12) };
    match h.on_record(&r) {
        Ok(Some(WriteRow::Stock { n })) => assert_eq!(n, 12),
        _ => panic!("expected a stock row"),
    }
    let p = Record { ean: "2".to_string(), value: RecordValue::Price(DecimalText::parse("1").ok().unwrap()) };
    assert_eq!(h.on_record(&p).err().unwrap(), "StockHandler received a non-stock record");
    let report = h.finish("acme");
    assert_eq!(report.supplier, "acme");
    assert_eq!(report.records, 2);
    assert!(report.errors.is_empty());
    let _ = PriceHandler::default();
    let _ = PriceHandler::new();
}

#[test]
fn csv_rows_and_headers() {
    assert_eq!(StockCsvWriter::header(), "SOURCE;EAN;STOCK;DATE");
    assert_eq!(PriceCsvWriter::header(), "EAN;BUY_PRICE;SELL_PRICE;FIX_PRICE");
    assert_eq!(StockCsvWriter::file_name(), "massDataStock.csv");
    assert_eq!(PriceCsvWriter::file_name(), "massDataPrice.csv");
    let w = StockCsvWriter::with_date("31.12.2023");
    assert_eq!(
        w.format_record("4006381333931", &WriteRow::Stock { n: 40 }, "AM", "AUTO").unwrap(),
        "AM;AUTO - 4006381333931;40;31.12.2023"
    );
    let d = || DecimalText::parse("1").ok().unwrap();
    let price = WriteRow::Price { buy: d(), sell: d(), fix: d() };
    assert_eq!(w.format_record("1", &price, "a", "b").unwrap_err(), "StockCsvWriter received a non-stock record");
    assert_eq!(
        PriceCsvWriter::create().format_record("1", &WriteRow::Stock { n: 1 }, "a", "b").unwrap_err(),
        "PriceCsvWriter received a non-price record"
    );
    let p = |t: &str| DecimalText::parse(t).ok().unwrap();
    let row = WriteRow::Price { buy: p("10.5"), sell: p("12"), fix: p("11.99") };
    assert_eq!(PriceCsvWriter::create().format_record("4006381333931", &row, "a", "b").unwrap(), "4006381333931;10.5;12;11.99");
}

#[test]
fn stock_writer_dates_rows_with_today() {
    let today = chrono::Local::now().format("%d.%m.%Y").to_string();
    let line = StockCsvWriter::create().format_record("1", &WriteRow::Stock { n: 2 }, "s", "p").unwrap();
    assert_eq!(&today[2..3], ".");
    assert_eq!(&today[5..6], ".");
    assert_eq!(line, format!("s;p - 1;2;{today}"));
}
