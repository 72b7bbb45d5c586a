use jumakl_extractor::config::{FieldMapping, FieldType, FormatConfig, SourceConfig, XmlConfig, XmlOptions};
use jumakl_extractor::sources::xml::{LoggedSink, ReadOutcome, RecordList, RecordSink, RecordState, StepOutcome};
use jumakl_extractor::sources::{coerce, parse_source, DecimalText, Record, RecordValue, Value};

fn field(name: &str, selector: &str, field_type: FieldType) -> (String, FieldMapping) {
    (name.to_string(), FieldMapping { selector: selector.to_string(), field_type })
}

fn xml_config(tag: &str) -> XmlConfig {
    XmlConfig { xml: XmlOptions { record_tag: tag.to_string() } }
}

fn stock_fields() -> Vec<(String, FieldMapping)> {
    vec![field("ean", "code", FieldType::String), field("stock", "qty", FieldType::Integer)]
}

fn parse(content: &str, fields: &Vec<(String, FieldMapping)>) -> (Vec<Record>, Result<(), String>) {
    let mut sink = LoggedSink::new(RecordList::new());
    let res = xml_config("item").parse(content, fields, &mut sink);
    (sink.into_sink().records, res)
}

fn stock_of(r: &Record) -> i64 {
    r.value.as_stock().unwrap()
}

#[test]
fn coerce_reads_each_type_after_trimming() {
    match coerce("  abc ", FieldType::String) {
        Ok(Value::String(s)) => assert_eq!(s, "abc"),
        _ => panic!("expected a string"),
    }
    match coerce(" -12 ", FieldType::Integer) {
        Ok(Value::Integer(n)) => assert_eq!(n, -12),
        _ => panic!("expected an integer"),
    }
    match coerce(" 1.50 ", FieldType::Decimal) {
        Ok(Value::Decimal(d)) => assert_eq!(d.as_str(), "1.50"),
        _ => panic!("expected a decimal"),
    }
    match coerce(" 01.02.2024 ", FieldType::Date) {
        Ok(Value::Date(s)) => assert_eq!(s, "01.02.2024"),
        _ => panic!("expected a date"),
    }
    assert_eq!(coerce("x1", FieldType::Integer).err().unwrap(), "invalid digit found in string");
    assert_eq!(coerce("   ", FieldType::Integer).err().unwrap(), "cannot parse integer from empty string");
    assert_eq!(coerce("1,5", FieldType::Decimal).err().unwrap(), "invalid float literal");
    assert_eq!(coerce("", FieldType::Decimal).err().unwrap(), "cannot parse float from empty string");
}

#[test]
fn values_convert_for_their_destination() {
    assert_eq!(Value::Integer(-5).into_string(), "-5");
    assert_eq!(Value::Integer(7).into_i64(), Ok(7));
    assert_eq!(Value::String(" 42 ".to_string()).into_i64(), Ok(42));
    assert_eq!(
        Value::String("4x".to_string()).into_i64(),
        Err("'4x' is not an integer: invalid digit found in string".to_string())
    );
    let d = DecimalText::parse("12.75").ok().unwrap();
    assert_eq!(Value::Decimal(d).into_i64(), Ok(12));
    assert_eq!(Value::Integer(3).into_decimal().ok().unwrap().as_str(), "3");
    assert_eq!(
        Value::Date("soon".to_string()).into_decimal().err().unwrap(),
        "'soon' is not a decimal: invalid float literal"
    );
    assert_eq!(Value::String(" 2.5 ".to_string()).into_decimal().ok().unwrap().as_str(), "2.5");
}

#[test]
fn decimal_text_accepts_only_literals() {
    assert_eq!(DecimalText::parse("1e3").ok().unwrap().as_str(), "1e3");
    assert_eq!(DecimalText::parse("1e3").ok().unwrap().to_i64(), 1000);
    assert_eq!(DecimalText::parse("-inf").ok().unwrap().to_i64(), i64::MIN);
    assert!(DecimalText::parse("twelve").is_err());
    assert_eq!(DecimalText::parse("0.5").ok().unwrap().copy().as_str(), "0.5");
}

#[test]
fn record_values_have_one_reading() {
    let s = RecordValue::Stock(4);
    assert_eq!(s.as_stock(), Some(4));
    assert!(s.as_price().is_none());
    let p = RecordValue::Price(DecimalText::parse("9.99").ok().unwrap());
    assert_eq!(p.as_stock(), None);
    assert_eq!(p.as_price().unwrap().as_str(), "9.99");
}

#[test]
fn xml_yields_one_record_per_closed_item() {
    let content = "<feed><item><code>111</code><qty> 5 </qty></item><other><code>9</code></other>\
                   <item><qty>7</qty><code>222</code></item></feed>";
    let (records, res) = parse(content, &stock_fields());
    assert!(res.is_ok());
    assert_eq!(records.len(), 2);
    assert_eq!(records[0].ean, "111");
    assert_eq!(stock_of(&records[0]), 5);
    assert_eq!(records[1].ean, "222");
    assert_eq!(stock_of(&records[1]), 7);
}

#[test]
fn xml_skips_items_missing_a_part() {
    let content = "<feed><item><code>1</code></item><item><qty>3</qty></item><item><code>2</code><qty>4</qty></item></feed>";
    let (records, res) = parse(content, &stock_fields());
    assert!(res.is_ok());
    assert_eq!(records.len(), 1);
    assert_eq!(records[0].ean, "2");
}

#[test]
fn xml_text_is_unescaped_but_cdata_is_raw() {
    let fields = vec![field("ean", "code", FieldType::String), field("stock", "qty", FieldType::Integer)];
    let (records, _) = parse("<f><item><code>A&amp;B</code><qty>1</qty></item></f>", &fields);
    assert_eq!(records[0].ean, "A&B");
    let (records, _) = parse("<f><item><code><![CDATA[A&amp;B]]></code><qty>1</qty></item></f>", &fields);
    assert_eq!(records[0].ean, "A&amp;B");
}

#[test]
fn xml_text_outside_items_is_ignored() {
    let (records, res) = parse("<f><code>x</code><qty>oops</qty><item><code>1</code><qty>2</qty></item></f>", &stock_fields());
    assert!(res.is_ok());
    assert_eq!(records.len(), 1);
}

#[test]
fn xml_field_errors_stop_parsing() {
    let (records, res) = parse(
        "<f><item><code>1</code><qty>2</qty></item><item><code>3</code><qty>many</qty></item><item><code>5</code><qty>6</qty></item></f>",
        &stock_fields(),
    );
    assert_eq!(records.len(), 1);
    assert_eq!(res, Err("invalid digit found in string".to_string()));
}

#[test]
fn xml_bad_entity_is_reported() {
    let (records, res) = parse("<f><item><code>a&bogus;</code><qty>1</qty></item></f>", &stock_fields());
    assert!(records.is_empty());
    let err = res.unwrap_err();
    assert!(err.starts_with("invalid xml entity: "), "{}", err);
    let cause = anyhow::Error::new(quick_xml::escape::unescape("a&bogus;").unwrap_err());
    assert_eq!(err, format!("invalid xml entity: {cause:#}"));
}

#[test]
fn xml_reader_errors_are_reported() {
    let content = "<f><item><code>1</code><qty>2</qty></item></g>";
    let (records, res) = parse(content, &stock_fields());
    assert_eq!(records.len(), 1);
    let err = res.unwrap_err();
    assert!(err.starts_with("failed to read xml event: "), "{}", err);
}

#[test]
fn xml_price_and_stock_by_field_name() {
    let fields = vec![
        field("ean", "e", FieldType::Integer),
        field("price", "p", FieldType::String),
        field("name", "n", FieldType::String),
    ];
    let (records, res) = parse("<r><item><e>0012</e><n>x</n><p> 3.50 </p></item></r>", &fields);
    assert!(res.is_ok());
    assert_eq!(records[0].ean, "12");
    assert_eq!(records[0].value.as_price().unwrap().as_str(), "3.50");
}

#[test]
fn xml_records_can_be_pulled_one_by_one() {
    let config = xml_config("item");
    let fields = stock_fields();
    let content = "<f><item><code>1</code><qty>2</qty></item><item><code>3</code><qty>x</qty></item></f>";
    let mut records = config.records(content, &fields);
    let first = records.next_record().unwrap().ok().unwrap();
    assert_eq!(first.ean, "1");
    assert_eq!(records.next_record().unwrap().err().unwrap(), "invalid digit found in string");
    assert!(records.next_record().is_none());
}

#[test]
fn parse_source_reads_xml_sources() {
    let source = SourceConfig {
        name: "n".to_string(),
        url: "u".to_string(),
        shortname: "s".to_string(),
        prefix: "p".to_string(),
        auth: None,
        fields: stock_fields(),
        format_config: FormatConfig::Xml(xml_config("item")),
    };
    let mut sink = LoggedSink::new(RecordList::new());
    let res = parse_source("<f><item><code>8</code><qty>9</qty></item></f>", &source, &mut sink);
    assert!(res.is_ok());
    let records = sink.into_sink().records;
    assert_eq!(records.len(), 1);
    assert_eq!(records[0].ean, "8");
}

#[test]
fn xml_references_in_text_are_resolved() {
    let (records, res) = parse("<f><item><code>a &lt; b &amp;&#65;</code><qty>1</qty></item></f>", &stock_fields());
    assert!(res.is_ok());
    assert_eq!(records[0].ean, "a < b &A");
}

#[test]
fn xml_text_belongs_to_its_enclosing_element() {
    let fields = vec![field("ean", "ean", FieldType::String), field("stock", "stock", FieldType::Integer)];
    let (records, res) = parse("<items><item><ean>1</ean>x<stock>2</stock>y</item></items>", &fields);
    assert!(res.is_ok());
    assert_eq!(records.len(), 1);
    assert_eq!(records[0].ean, "1");
    assert_eq!(stock_of(&records[0]), 2);
}

#[test]
fn xml_text_of_the_record_element_goes_to_its_selector() {
    let fields = vec![
        field("ean", "item", FieldType::String),
        field("stock", "qty", FieldType::Integer),
    ];
    let (records, res) = parse("<f><item>A<qty>3</qty>B</item></f>", &fields);
    assert!(res.is_ok());
    assert_eq!(records[0].ean, "B");
    assert_eq!(stock_of(&records[0]), 3);
}

#[test]
fn xml_unrelated_fields_change_nothing() {
    let content = "<f><item><code>1</code><size>7</size>oops<qty>2</qty></item>\
                   <item><qty>4</qty><code>3</code><size>8</size></item></f>";
    let mut more = stock_fields();
    more.push(field("size", "size", FieldType::Integer));
    let (plain, res_plain) = parse(content, &stock_fields());
    let (extended, res_extended) = parse(content, &more);
    assert!(res_plain.is_ok());
    assert!(res_extended.is_ok());
    let keys = |rs: &Vec<Record>| rs.iter().map(|r| (r.ean.clone(), stock_of(r))).collect::<Vec<_>>();
    assert_eq!(keys(&plain), vec![("1".to_string(), 2), ("3".to_string(), 4)]);
    assert_eq!(keys(&extended), keys(&plain));
}

/// Keeps records until it has the given number, then refuses the next.
struct Limited {
    limit: usize,
    seen: Vec<String>,
}

impl RecordSink for Limited {
    fn on_record(&mut self, record: Record) -> Result<(), String> {
        self.seen.push(record.ean);
        if self.seen.len() > self.limit {
            Err(format!("no room after {}", self.limit))
        } else {
            Ok(())
        }
    }
}

#[test]
fn xml_parse_stops_at_a_refused_record() {
    let content = "<f><item><code>1</code><qty>1</qty></item><item><code>2</code><qty>2</qty></item>\
                   <item><code>3</code><qty>3</qty></item></f>";
    let run = |limit: usize| {
        let mut sink = LoggedSink::new(Limited { limit, seen: Vec::new() });
        let res = xml_config("item").parse(content, &stock_fields(), &mut sink);
        (res, sink.into_sink().seen)
    };
    let (res, seen) = run(0);
    assert_eq!(res, Err("no room after 0".to_string()));
    assert_eq!(seen, vec!["1".to_string()]);
    let (res, seen) = run(1);
    assert_eq!(res, Err("no room after 1".to_string()));
    assert_eq!(seen, vec!["1".to_string(), "2".to_string()]);
    let (res, seen) = run(5);
    assert!(res.is_ok());
    assert_eq!(seen.len(), 3);
}

#[test]
fn parse_source_parses_as_its_format_does() {
    let source = SourceConfig {
        name: "n".to_string(),
        url: "u".to_string(),
        shortname: "s".to_string(),
        prefix: "p".to_string(),
        auth: None,
        fields: stock_fields(),
        format_config: FormatConfig::Xml(xml_config("item")),
    };
    let content = "<f><item><code>1</code><qty>2</qty></item><item><code>3</code><qty>z</qty></item></f>";
    let mut via_source = LoggedSink::new(RecordList::new());
    let a = parse_source(content, &source, &mut via_source);
    let (direct, b) = parse(content, &stock_fields());
    assert_eq!(a, b);
    let eans = |rs: &Vec<Record>| rs.iter().map(|r| r.ean.clone()).collect::<Vec<_>>();
    assert_eq!(eans(&via_source.into_sink().records), eans(&direct));
}

fn advance_all(outcomes: Vec<ReadOutcome>, fields: &Vec<(String, FieldMapping)>) -> (Vec<Record>, Option<Result<(), String>>) {
    let mut st = RecordState::new();
    let mut records = Vec::new();
    for o in outcomes {
        match st.advance(o, b"item", fields) {
            StepOutcome::Next(Some(r)) => records.push(r),
            StepOutcome::Next(None) => {}
            StepOutcome::Done(d) => return (records, Some(d)),
        }
    }
    (records, None)
}

fn start(t: &str) -> ReadOutcome {
    ReadOutcome::Start(t.as_bytes().to_vec())
}

fn end(t: &str) -> ReadOutcome {
    ReadOutcome::End(t.as_bytes().to_vec())
}

fn text(t: &str) -> ReadOutcome {
    ReadOutcome::Text(Ok(t.to_string()))
}

#[test]
fn advance_assigns_text_to_its_enclosing_element() {
    let fields = vec![field("ean", "ean", FieldType::String), field("stock", "stock", FieldType::Integer)];
    let (records, done) = advance_all(
        vec![
            start("items"), start("item"), start("ean"), text("1"), end("ean"), text("x"),
            start("stock"), text(" 2 "), end("stock"), end("item"), text("outside"), end("items"),
            ReadOutcome::Eof,
        ],
        &fields,
    );
    assert_eq!(done, Some(Ok(())));
    assert_eq!(records.len(), 1);
    assert_eq!(records[0].ean, "1");
    assert_eq!(stock_of(&records[0]), 2);
}

#[test]
fn advance_stops_on_failures() {
    let fields = stock_fields();
    let (records, done) = advance_all(vec![start("item"), ReadOutcome::Failed("boom".to_string())], &fields);
    assert!(records.is_empty());
    assert_eq!(done, Some(Err("failed to read xml event: boom".to_string())));
    let (_, done) = advance_all(
        vec![start("item"), start("qty"), ReadOutcome::Text(Err("invalid xml entity: bad".to_string()))],
        &fields,
    );
    assert_eq!(done, Some(Err("invalid xml entity: bad".to_string())));
    let (_, done) = advance_all(vec![start("other"), ReadOutcome::Text(Err("ignored".to_string())), ReadOutcome::Other], &fields);
    assert_eq!(done, None);
    let (_, done) = advance_all(vec![start("item"), start("qty"), text("seven")], &fields);
    assert_eq!(done, Some(Err("invalid digit found in string".to_string())));
}
