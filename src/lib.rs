//! Registration of typed extensions for the QuickJS engine.
//!
//! Extensions are collected by an [`ExtensionBuilder`], which turns them into
//! a single-use module loader, a specifier resolver over the registered module
//! names, and an initializer that installs every extension's globals and
//! seeds the options that module evaluation reads back.

mod builder;
mod definition;
mod error;
mod global;
mod loader;
mod options;
mod resolver;
mod table;

pub use crate::builder::{
    lemma_globals_only_not_resolvable, lemma_module_loads_once, lemma_other_names_kept,
    registered_modules, ExtensionBuilder,
};
pub use crate::definition::{
    effective_name, Extension, GlobalsOnly, Implementation, ModuleImpl, ModuleImplementationType,
};
pub use crate::error::ExtensionError;
pub use crate::global::{
    lemma_later_binding_wins, lemma_options_round_trip, stored_options, GlobalBinding,
    GlobalInitializer,
};
pub use crate::loader::ModuleLoader;
pub use crate::options::OptionsStore;
pub use crate::resolver::{full_specifier, name_set, relative_specifier, ModuleResolver};
