//! What a run is asked to do: which kinds of data to extract and from which
//! config file. The command line itself is parsed by the program; this is
//! the parsed form and the choices made from it.

use vstd::prelude::*;
use crate::paths::{join_path, join_spec};

verus! {

/// The kind of data a run extracts.
#[derive(Debug, Clone, Copy, PartialEq, Eq, Structural)]
pub enum ExtractKind {
    Stock,
    Price,
}

impl ExtractKind {
    /// The config `fields` key this kind requires alongside "ean".
    pub open spec fn spec_value_field(self) -> Seq<char> {
        match self {
            ExtractKind::Stock => "stock"@,
            ExtractKind::Price => "price"@,
        }
    }

    /// The config `fields` key this kind requires alongside "ean".
    pub fn value_field(&self) -> (res: &'static str)
        ensures
            res@ == self.spec_value_field(),
    {
        match self {
            ExtractKind::Stock => "stock",
            ExtractKind::Price => "price",
        }
    }

    /// The name of the kind as it appears in messages.
    pub open spec fn spec_label(self) -> Seq<char> {
        match self {
            ExtractKind::Stock => "Stock"@,
            ExtractKind::Price => "Price"@,
        }
    }

    /// The name of the kind as it appears in messages.
    pub fn label(&self) -> (res: &'static str)
        ensures
            res@ == self.spec_label(),
    {
        match self {
            ExtractKind::Stock => "Stock",
            ExtractKind::Price => "Price",
        }
    }

    /// The name of the config file that holds this kind's sources.
    pub open spec fn spec_config_file(self) -> Seq<char> {
        match self {
            ExtractKind::Stock => "sources.stock.toml"@,
            ExtractKind::Price => "sources.price.toml"@,
        }
    }
}

/// Extract and compare product data from supplier feeds.
#[derive(Debug)]
pub struct Cli {
    /// What kind of data to extract. If omitted, extracts everything.
    pub extract: Option<ExtractKind>,
    /// Only run these specific sources; all sources when omitted.
    pub sources: Option<Vec<String>>,
    /// Path to the sources config file; used only together with `extract`.
    pub config: Option<String>,
    /// Print extra logging.
    pub verbose: bool,
}

impl Cli {
    /// The kinds a run goes through, in order.
    pub open spec fn spec_modes(&self) -> Seq<ExtractKind> {
        match self.extract {
            Some(kind) => seq![kind],
            None => seq![ExtractKind::Stock, ExtractKind::Price],
        }
    }

    /// The kinds a run goes through: the one asked for, or stock then price.
    pub fn modes(&self) -> (res: Vec<ExtractKind>)
        ensures
            res@ == self.spec_modes(),
    {
        match self.extract {
            Some(kind) => {
                let mut v = Vec::new();
                v.push(kind);
                v
            },
            None => {
                let mut v = Vec::new();
                v.push(ExtractKind::Stock);
                v.push(ExtractKind::Price);
                v
            },
        }
    }

    /// The config file read for `kind`: the kind's own file in the config
    /// folder, unless a single kind was asked for together with an explicit
    /// `--config` path.
    pub open spec fn spec_config_path(&self, kind: ExtractKind, config_folder: Seq<char>) -> Seq<
        char,
    > {
        let default = join_spec(config_folder, kind.spec_config_file());
        if self.extract is None {
            default
        } else {
            match self.config {
                Some(path) => path@,
                None => default,
            }
        }
    }

    /// The config file read for `kind`, given the folder that holds the
    /// config files.
    pub fn config_path(&self, kind: ExtractKind, config_folder: &str) -> (res: String)
        ensures
            res@ == self.spec_config_path(kind, config_folder@),
    {
        let file = match kind {
            ExtractKind::Stock => "sources.stock.toml",
            ExtractKind::Price => "sources.price.toml",
        };
        if self.extract.is_none() {
            return join_path(config_folder, file);
        }
        match &self.config {
            Some(path) => crate::text::copy_string(path),
            None => join_path(config_folder, file),
        }
    }
}

/// With a kind asked for, an explicit config path is read as given, for
/// either kind; with none asked for, each kind reads its own file in the
/// config folder, `sources.stock.toml` or `sources.price.toml`.
pub proof fn law_config_path_choice(cli: Cli, kind: ExtractKind, folder: Seq<char>)
    ensures
        cli.extract is Some && cli.config is Some ==> cli.spec_config_path(kind, folder)
            == cli.config->Some_0@,
        cli.extract is None ==> cli.spec_config_path(kind, folder) == join_spec(
            folder,
            match kind {
                ExtractKind::Stock => "sources.stock.toml"@,
                ExtractKind::Price => "sources.price.toml"@,
            },
        ),
        cli.config is None ==> cli.spec_config_path(kind, folder) == join_spec(
            folder,
            match kind {
                ExtractKind::Stock => "sources.stock.toml"@,
                ExtractKind::Price => "sources.price.toml"@,
            },
        ),
{
}

/// With no kind asked for, a run goes through every kind, each once.
pub proof fn law_modes_cover_every_kind(cli: Cli, kind: ExtractKind)
    requires
        cli.extract is None,
    ensures
        cli.spec_modes().contains(kind),
        cli.spec_modes().len() == 2,
        cli.spec_modes()[0] != cli.spec_modes()[1],
{
    match kind {
        ExtractKind::Stock => assert(cli.spec_modes()[0] == kind),
        ExtractKind::Price => assert(cli.spec_modes()[1] == kind),
    }
}

/// The two kinds ask for different value fields.
pub proof fn law_value_fields_differ()
    ensures
        ExtractKind::Stock.spec_value_field() != ExtractKind::Price.spec_value_field(),
{
    reveal_strlit("stock");
    reveal_strlit("price");
    assert("stock"@[0] != "price"@[0]);
}

} // verus!
