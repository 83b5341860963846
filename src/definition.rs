use vstd::prelude::*;

verus! {

/// Marks the kinds of implementation that an extension can have.
pub trait ModuleImplementationType<T> {
}

/// Implementation kind of an extension that only installs globals.
#[derive(Debug, Clone, Copy)]
pub struct GlobalsOnly;

impl<T> ModuleImplementationType<T> for GlobalsOnly {
}

/// Implementation kind of an extension that defines a module, and may
/// install globals as well.
///
/// `module` is what the engine needs to declare and evaluate it.
pub struct ModuleImpl<D> {
    pub name: String,
    pub module: D,
}

impl<T, D> ModuleImplementationType<T> for ModuleImpl<D> {
}

/// The implementation of an extension, one kind or the other.
pub enum Implementation<D> {
    Module(ModuleImpl<D>),
    GlobalsOnly(GlobalsOnly),
}

/// An extension as the registry receives it: its implementation, the
/// options that it is configured with, and its global-binding function.
pub struct Extension<D, O, G> {
    pub implementation: Implementation<D>,
    pub options: O,
    pub globals: G,
}

impl<D, O, G> Extension<D, O, G> {
    /// The name that the extension declares: its module's name, or the
    /// empty name for an extension that only installs globals.
    pub open spec fn declared_name(&self) -> Seq<char> {
        match self.implementation {
            Implementation::Module(m) => m.name@,
            Implementation::GlobalsOnly(_) => Seq::empty(),
        }
    }

    pub open spec fn spec_is_module(&self) -> bool {
        self.implementation is Module
    }

    /// Whether the extension defines a module.
    #[verifier::when_used_as_spec(spec_is_module)]
    pub fn is_module(&self) -> (r: bool)
        ensures
            r == self.spec_is_module(),
    {
        match self.implementation {
            Implementation::Module(_) => true,
            Implementation::GlobalsOnly(_) => false,
        }
    }
}

/// The name that an extension is registered under: the name given at
/// registration, else the one it declares.
pub open spec fn effective_name<D, O, G>(ext: Extension<D, O, G>, name: Option<&str>) -> Seq<char> {
    match name {
        Some(n) => n@,
        None => ext.declared_name(),
    }
}

} // verus!
