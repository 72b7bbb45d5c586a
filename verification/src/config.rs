//! The sources a run reads, as the config file describes them. Reading and
//! parsing the TOML file is done by the program; this is the parsed form,
//! its defaults and its validation.

use vstd::prelude::*;
use crate::cli::ExtractKind;
use crate::text::{str_eq, string_of, push_str, copy_string};

verus! {

pub struct Config {
    pub sources: Vec<SourceConfig>,
}

pub struct SourceConfig {
    pub name: String,
    pub url: String,
    /// Supplier short name, written in front of each exported row.
    pub shortname: String,
    /// Written before the EAN in each exported row.
    pub prefix: String,
    pub auth: Option<AuthConfig>,
    /// The configured fields, each a field name with its mapping; no name
    /// occurs twice.
    pub fields: Vec<(String, FieldMapping)>,
    pub format_config: FormatConfig,
}

/// HTTP Basic credentials for a source.
pub struct AuthConfig {
    pub username: String,
    pub password: String,
}

pub enum FormatConfig {
    Xml(XmlConfig),
    Csv(CsvConfig),
}

pub struct XmlConfig {
    pub xml: XmlOptions,
}

pub struct XmlOptions {
    /// The element that encloses one record.
    pub record_tag: String,
}

pub struct CsvConfig {
    pub csv: CsvOptions,
}

pub struct CsvOptions {
    pub delimiter: String,
    pub has_header: bool,
}

pub struct FieldMapping {
    /// The tag (or column) the field is read from.
    pub selector: String,
    /// How the raw text of the field is read; `type` in the config file.
    pub field_type: FieldType,
}

#[derive(Debug, Clone, Copy, PartialEq, Eq, Structural)]
pub enum FieldType {
    String,
    Integer,
    Decimal,
    Date,
}

/// The delimiter of a CSV source that names none.
pub fn default_delimiter() -> (res: String)
    ensures
        res@ == ","@,
{
    string_of(",")
}

/// Whether a CSV source has a header row, when it does not say.
pub fn default_true() -> (res: bool)
    ensures
        res,
{
    true
}

/// The type of a field that names none.
pub fn default_field_type() -> (res: FieldType)
    ensures
        res == FieldType::String,
{
    FieldType::String
}

impl SourceConfig {
    /// No field name occurs twice, as in the config file's table.
    pub open spec fn fields_distinct(&self) -> bool {
        names_distinct(self.fields@)
    }
}

/// No two of `fields` have the same name, as the keys of the config file's
/// table.
pub open spec fn names_distinct(fields: Seq<(String, FieldMapping)>) -> bool {
    forall|i: int, j: int| 0 <= i < j < fields.len() ==> #[trigger] fields[i].0@ != #[trigger] fields[j].0@
}

/// Whether one of `fields` is called `name`.
pub open spec fn fields_have(fields: Seq<(String, FieldMapping)>, name: Seq<char>) -> bool {
    exists|i: int| 0 <= i < fields.len() && #[trigger] fields[i].0@ == name
}

/// The first field a source needs for `kind` and lacks: "ean" first, then
/// the kind's value field.
pub open spec fn missing_field(source: SourceConfig, kind: ExtractKind) -> Option<Seq<char>> {
    if !fields_have(source.fields@, "ean"@) {
        Some("ean"@)
    } else if !fields_have(source.fields@, kind.spec_value_field()) {
        Some(kind.spec_value_field())
    } else {
        None
    }
}

/// The first source, in order, that lacks a field, with that field.
pub open spec fn first_missing(sources: Seq<SourceConfig>, kind: ExtractKind) -> Option<
    (Seq<char>, Seq<char>),
>
    decreases sources.len(),
{
    if sources.len() == 0 {
        None
    } else {
        match missing_field(sources[0], kind) {
            Some(field) => Some((sources[0].name@, field)),
            None => first_missing(sources.drop_first(), kind),
        }
    }
}

/// A source that lacks a field its kind needs.
pub struct ConfigError {
    pub source: String,
    pub field: String,
}

impl ConfigError {
    pub open spec fn spec_message(&self) -> Seq<char> {
        "source '"@ + self.source@ + "' is missing required field '"@ + self.field@ + "'"@
    }

    pub fn message(&self) -> (res: String)
        ensures
            res@ == self.spec_message(),
    {
        let mut out = string_of("source '");
        push_str(&mut out, self.source.as_str());
        push_str(&mut out, "' is missing required field '");
        push_str(&mut out, self.field.as_str());
        push_str(&mut out, "'");
        out
    }
}

fn has_field(fields: &Vec<(String, FieldMapping)>, name: &str) -> (res: bool)
    ensures
        res == fields_have(fields@, name@),
{
    let mut i: usize = 0;
    while i < fields.len()
        invariant
            i <= fields@.len(),
            forall|j: int| 0 <= j < i ==> #[trigger] fields@[j].0@ != name@,
        decreases fields@.len() - i,
    {
        if str_eq(fields[i].0.as_str(), name) {
            return true;
        }
        i += 1;
    }
    false
}

impl Config {
    /// Checks that every source has an "ean" field and the value field of
    /// `kind`, and names the first source, in order, that does not.
    pub fn validate(&self, kind: ExtractKind) -> (res: Result<(), ConfigError>)
        ensures
            match res {
                Ok(()) => first_missing(self.sources@, kind) is None,
                Err(e) => first_missing(self.sources@, kind) == Some((e.source@, e.field@)),
            },
    {
        let value_field = kind.value_field();
        let mut i: usize = 0;
        assert(self.sources@.skip(0) == self.sources@);
        while i < self.sources.len()
            invariant
                i <= self.sources@.len(),
                value_field@ == kind.spec_value_field(),
                first_missing(self.sources@, kind) == first_missing(self.sources@.skip(i as int), kind),
            decreases self.sources@.len() - i,
        {
            let source = &self.sources[i];
            let ghost rest = self.sources@.skip(i as int);
            assert(rest[0] == *source);
            assert(rest.drop_first() == self.sources@.skip(i + 1));
            if !has_field(&source.fields, "ean") {
                return Err(ConfigError { source: copy_string(&source.name), field: string_of("ean") });
            }
            if !has_field(&source.fields, value_field) {
                return Err(
                    ConfigError { source: copy_string(&source.name), field: string_of(value_field) },
                );
            }
            i += 1;
        }
        Ok(())
    }
}

/// A config passes validation exactly when every source has both fields.
pub proof fn law_validate_accepts_complete_sources(sources: Seq<SourceConfig>, kind: ExtractKind)
    ensures
        first_missing(sources, kind) is None <==> forall|i: int|
            0 <= i < sources.len() ==> #[trigger] missing_field(sources[i], kind) is None,
    decreases sources.len(),
{
    if sources.len() > 0 {
        law_validate_accepts_complete_sources(sources.drop_first(), kind);
        assert forall|i: int| 1 <= i < sources.len() implies #[trigger] missing_field(sources[i], kind)
            == missing_field(sources.drop_first()[i - 1], kind) by {}
        if first_missing(sources, kind) is None {
            assert forall|i: int| 0 <= i < sources.len() implies #[trigger] missing_field(
                sources[i],
                kind,
            ) is None by {
                if i > 0 {
                    assert(missing_field(sources.drop_first()[i - 1], kind) is None);
                }
            }
        } else if missing_field(sources[0], kind) is None {
            let j = choose|j: int|
                0 <= j < sources.drop_first().len() && !(#[trigger] missing_field(
                    sources.drop_first()[j],
                    kind,
                ) is None);
            assert(missing_field(sources[j + 1], kind) == missing_field(sources.drop_first()[j], kind));
        }
    }
}

} // verus!
