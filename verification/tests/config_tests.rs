use jumakl_extractor::cli::{Cli, ExtractKind};
use jumakl_extractor::config::{
    default_delimiter, default_field_type, default_true, Config, FieldMapping, FieldType,
    FormatConfig, SourceConfig, XmlConfig, XmlOptions,
};
use jumakl_extractor::paths::{config_folder_path, join_path, output_folder_path, templates_folder_path};
use std::path::Path;

fn field(name: &str, selector: &str) -> (String, FieldMapping) {
    (name.to_string(), FieldMapping { selector: selector.to_string(), field_type: FieldType::String })
}

fn source(name: &str, fields: Vec<(String, FieldMapping)>) -> SourceConfig {
    SourceConfig {
        name: name.to_string(),
        url: "http://example.invalid/feed.xml".to_string(),
        shortname: "S".to_string(),
        prefix: "P".to_string(),
        auth: None,
        fields,
        format_config: FormatConfig::Xml(XmlConfig { xml: XmlOptions { record_tag: "item".to_string() } }),
    }
}

fn cli(extract: Option<ExtractKind>, config: Option<&str>) -> Cli {
    Cli { extract, sources: None, config: config.map(|s| s.to_string()), verbose: false }
}

#[test]
fn value_fields_and_labels() {
    assert_eq!(ExtractKind::Stock.value_field(), "stock");
    assert_eq!(ExtractKind::Price.value_field(), "price");
    assert_ne!(ExtractKind::Stock.value_field(), ExtractKind::Price.value_field());
    assert_eq!(ExtractKind::Stock.label(), format!("{:?}", ExtractKind::Stock));
    assert_eq!(ExtractKind::Price.label(), format!("{:?}", ExtractKind::Price));
}

#[test]
fn modes_default_to_every_kind() {
    assert_eq!(cli(None, None).modes(), vec![ExtractKind::Stock, ExtractKind::Price]);
    assert_eq!(cli(Some(ExtractKind::Price), None).modes(), vec![ExtractKind::Price]);
    assert_eq!(cli(Some(ExtractKind::Stock), None).modes(), vec![ExtractKind::Stock]);
}

#[test]
fn config_path_prefers_explicit_path_only_with_a_kind() {
    let folder = "/app/config";
    assert_eq!(cli(None, Some("mine.toml")).config_path(ExtractKind::Stock, folder), "/app/config/sources.stock.toml");
    assert_eq!(cli(None, None).config_path(ExtractKind::Price, folder), "/app/config/sources.price.toml");
    assert_eq!(cli(Some(ExtractKind::Stock), Some("mine.toml")).config_path(ExtractKind::Stock, folder), "mine.toml");
    assert_eq!(cli(Some(ExtractKind::Price), None).config_path(ExtractKind::Price, folder), "/app/config/sources.price.toml");
}

#[test]
fn paths_join_like_std() {
    for (base, name) in [("a", "b"), ("a/", "b"), ("", "b"), ("a", "/b"), ("/x/y", "config")] {
        let ours = join_path(base, name);
        let theirs = Path::new(base).join(name);
        assert_eq!(Path::new(&ours), theirs.as_path(), "input {:?}", (base, name));
    }
    assert_eq!(config_folder_path("/opt/app"), "/opt/app/config");
    assert_eq!(config_folder_path(""), "config");
    assert_eq!(output_folder_path("/opt/app"), "/opt/app/output");
    assert_eq!(templates_folder_path("/opt/app/"), "/opt/app/templates");
}

#[test]
fn defaults_of_the_config_file() {
    assert_eq!(default_delimiter(), ",");
    assert!(default_true());
    assert_eq!(default_field_type(), FieldType::String);
}

#[test]
fn validate_accepts_complete_sources() {
    let config = Config {
        sources: vec![
            source("a", vec![field("ean", "code"), field("stock", "qty")]),
            source("b", vec![field("stock", "q"), field("name", "n"), field("ean", "e")]),
        ],
    };
    assert!(config.validate(ExtractKind::Stock).is_ok());
    let err = config.validate(ExtractKind::Price).unwrap_err();
    assert_eq!(err.source, "a");
    assert_eq!(err.field, "price");
    assert_eq!(err.message(), "source 'a' is missing required field 'price'");
}

#[test]
fn validate_names_the_first_incomplete_source_and_ean_first() {
    let config = Config {
        sources: vec![
            source("ok", vec![field("ean", "code"), field("stock", "qty")]),
            source("bad", vec![field("name", "n")]),
            source("worse", vec![]),
        ],
    };
    let err = config.validate(ExtractKind::Stock).unwrap_err();
    assert_eq!(err.message(), "source 'bad' is missing required field 'ean'");
    assert!(Config { sources: vec![] }.validate(ExtractKind::Price).is_ok());
}
