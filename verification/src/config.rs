//! The configuration surface consumed read-only by the pipeline: the engine
//! kind, the excluded-table list, and the ordered template specifications.

use vstd::prelude::*;

use crate::schema::DatabaseKind;

verus! {

/// One template specification: where its source lives, where its output
/// goes, which language's type map rewrites column types, and whether it
/// renders once or once per table.
#[derive(Debug, PartialEq)]
pub struct TemplateConfig {
    pub name: String,
    pub input: String,
    pub output_dir: String,
    pub output: String,
    pub single: bool,
    pub language: String,
}

/// Mathematical model of a [`TemplateConfig`].
pub struct TemplateConfigView {
    pub name: Seq<char>,
    pub input: Seq<char>,
    pub output_dir: Seq<char>,
    pub output: Seq<char>,
    pub single: bool,
    pub language: Seq<char>,
}

impl DeepView for TemplateConfig {
    type V = TemplateConfigView;

    open spec fn deep_view(&self) -> TemplateConfigView {
        TemplateConfigView {
            name: self.name@,
            input: self.input@,
            output_dir: self.output_dir@,
            output: self.output@,
            single: self.single,
            language: self.language@,
        }
    }
}

impl Clone for TemplateConfig {
    /// A structural copy.
    fn clone(&self) -> (r: Self)
        ensures
            r.deep_view() == self.deep_view(),
    {
        TemplateConfig {
            name: self.name.clone(),
            input: self.input.clone(),
            output_dir: self.output_dir.clone(),
            output: self.output.clone(),
            single: self.single,
            language: self.language.clone(),
        }
    }
}

/// Database settings after normalization: an absent exclusion list has
/// become the empty list, and an absent environment key the default one.
#[derive(Debug, PartialEq)]
pub struct DatabaseConfig {
    pub kind: DatabaseKind,
    pub env_key: String,
    pub exclude_tables: Vec<String>,
}

/// Database settings as they come out of the configuration file, where the
/// environment key naming the connection string and the exclusion list are
/// both optional.
#[derive(Debug, PartialEq)]
pub struct DeserializedDatabaseConfig {
    pub kind: DatabaseKind,
    pub env_key: Option<String>,
    pub exclude_tables: Option<Vec<String>>,
}

/// The whole normalized configuration.
#[derive(Debug, PartialEq)]
pub struct Config {
    pub database: DatabaseConfig,
    pub templates: Vec<TemplateConfig>,
}

/// The whole configuration as it comes out of the configuration file.
#[derive(Debug, PartialEq)]
pub struct DeserializedConfig {
    pub database: DeserializedDatabaseConfig,
    pub templates: Vec<TemplateConfig>,
}

impl Config {
    /// Normalizes a freshly parsed configuration: the engine kind and the
    /// templates carry over unchanged, a missing exclusion list means that
    /// no table is excluded, and a missing environment key falls back to
    /// the default connection-string variable.
    pub fn from_deserialized(d: DeserializedConfig) -> (r: Config)
        ensures
            r.database.kind == d.database.kind,
            r.database.env_key@ == (match d.database.env_key {
                Some(k) => k@,
                None => "DATABASE_URL"@,
            }),
            r.database.exclude_tables.deep_view() == (match d.database.exclude_tables {
                Some(ex) => ex.deep_view(),
                None => Seq::<Seq<char>>::empty(),
            }),
            r.templates.deep_view() == d.templates.deep_view(),
    {
        let ghost had_no_list = d.database.exclude_tables is None;
        let env_key = match d.database.env_key {
            Some(k) => k,
            None => String::from_str("DATABASE_URL"),
        };
        let exclude_tables = match d.database.exclude_tables {
            Some(ex) => ex,
            None => Vec::new(),
        };
        proof {
            if had_no_list {
                assert(exclude_tables.deep_view() =~= Seq::<Seq<char>>::empty());
            }
        }
        Config {
            database: DatabaseConfig { kind: d.database.kind, env_key, exclude_tables },
            templates: d.templates,
        }
    }
}

} // verus!
