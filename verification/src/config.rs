//! Configuration shapes for the import catalog. Several interchangeable
//! notations are accepted; normalization flattens them all into one
//! canonical row table.

use vstd::prelude::*;

verus! {

/// What one source module offers in the mapping notation.
#[derive(Debug, PartialEq, Eq)]
pub enum ImportSource {
    /// Bare export names: every name binds itself.
    Simple(Vec<String>),
    /// Entries that may carry a local alias.
    WithAlias(Vec<ImportItem>),
}

/// One entry of the mapping notation.
#[derive(Debug, PartialEq, Eq)]
pub enum ImportItem {
    /// A bare export name.
    Simple(String),
    /// An export name with the local alias it must bind.
    Aliased(String, String),
}

/// One fully explicit import: name, optional alias, and source module.
#[derive(Debug, PartialEq, Eq)]
pub struct ExplicitImport {
    pub name: String,
    pub alias: Option<String>,
    pub from: String,
}

/// One sub-item of an inline preset.
#[derive(Debug, PartialEq, Eq)]
pub enum PresetImport {
    /// A bare export name, taken from the surrounding source module.
    Simple(String),
    /// A positional tuple: `(name)`, `(name, alias)`, or
    /// `(name, alias, source)`. Any other length is dropped.
    Tuple(Vec<String>),
    /// An object naming the export and an optional alias.
    Object { name: String, alias: Option<String> },
    /// A nested inline preset, flattened with its own source module.
    Nested(Box<InlinePreset>),
}

/// Imports declared against one shared source module.
#[derive(Debug, PartialEq, Eq)]
pub struct InlinePreset {
    /// The source module the sub-items default to.
    pub from: String,
    /// Whether the import is type-only; carried through, never acted on.
    pub type_only: Option<bool>,
    /// The sub-items.
    pub imports: Vec<PresetImport>,
}

/// One item of the catalog configuration, in any accepted notation.
#[derive(Debug, PartialEq, Eq)]
pub enum ImportConfig {
    /// An inline preset.
    InlinePreset(InlinePreset),
    /// A flat list of fully explicit imports.
    Explicit(Vec<ExplicitImport>),
    /// A mapping from source module to what it offers.
    ImportsMap(Vec<(String, ImportSource)>),
    /// A preset name.
    PresetName(String),
}

/// One value or a list of values.
#[derive(Debug, PartialEq, Eq)]
pub enum Arrayable<T> {
    Single(T),
    Array(Vec<T>),
}

/// The engine's configuration: the catalog items and a debug switch.
#[derive(Debug, PartialEq, Eq)]
pub struct PluginConfig {
    /// The catalog configuration, absent when nothing is to be imported.
    pub imports: Option<Arrayable<ImportConfig>>,
    /// Drives diagnostic output only; resolution ignores it.
    pub debug: bool,
}

impl Default for PluginConfig {
    /// An empty configuration: no catalog items, debugging off.
    fn default() -> (r: Self)
        ensures
            r.imports is None,
            !r.debug,
    {
        PluginConfig { imports: Option::None, debug: false }
    }
}

} // verus!
