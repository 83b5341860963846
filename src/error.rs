use vstd::prelude::*;

verus! {

/// The failures that the registry's artifacts report.
#[derive(Debug, PartialEq, Eq)]
pub enum ExtensionError {
    /// No module is registered under the name, or it was already loaded.
    LoadNotFound { name: String },
    /// The specifier names no registered or builtin module.
    ResolutionFailure { base: String, name: String },
    /// A module was evaluated before its options were stored.
    OptionsMissing { name: String },
}

} // verus!
