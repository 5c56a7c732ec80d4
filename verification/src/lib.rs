//! Auto-import resolution engine.
//!
//! Given a catalog that maps source modules to the names they export, and a
//! model of one parsed module, the engine decides which import statements
//! are missing and splices them in at a syntactically valid position: a
//! single identifier walk classifies every name as used, declared or
//! imported; the resolver keeps exactly the catalog entries whose required
//! local name is used but unbound; the synthesizer and splicer realize the
//! kept entries as import statements after any leading directives.

pub mod ast;
pub mod catalog;
pub mod classify;
pub mod config;
pub mod laws;
pub mod presets;
pub mod resolve;
pub mod splice;
pub mod strutil;
pub mod synth;
pub mod visitor;

pub use classify::IdentifierCollector;
pub use config::{
    Arrayable, ExplicitImport, ImportConfig, ImportItem, ImportSource, InlinePreset, PluginConfig,
    PresetImport,
};
pub use presets::get_preset_imports;
pub use visitor::AutoImportVisitor;
