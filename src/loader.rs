use crate::error::ExtensionError;
use crate::table::Table;
use vstd::prelude::*;

verus! {

/// Dispenses each registered module once.
///
/// Every entry is taken out when it is loaded: the engine keeps the modules
/// it has loaded, so a second load of one name is an error.
pub struct ModuleLoader<D> {
    modules: Table<D>,
}

impl<D> View for ModuleLoader<D> {
    type V = Map<Seq<char>, D>;

    closed spec fn view(&self) -> Map<Seq<char>, D> {
        self.modules@
    }
}

impl<D> ModuleLoader<D> {
    pub closed spec fn wf(&self) -> bool {
        self.modules.wf()
    }

    pub(crate) fn new(modules: Table<D>) -> (r: ModuleLoader<D>)
        requires
            modules.wf(),
        ensures
            r.wf(),
            r@ == modules@,
    {
        ModuleLoader { modules }
    }

    /// Takes out the module registered under `name`.
    pub fn load(&mut self, name: &str) -> (r: Result<D, ExtensionError>)
        requires
            old(self).wf(),
        ensures
            final(self).wf(),
            final(self)@ == old(self)@.remove(name@),
            old(self)@.contains_key(name@) ==> r == Ok::<D, ExtensionError>(old(self)@[name@]),
            !old(self)@.contains_key(name@) ==> (r matches Err(
                ExtensionError::LoadNotFound { name: n },
            ) && n@ == name@),
    {
        let key = name.to_owned();
        match self.modules.remove(&key) {
            Some(d) => Ok(d),
            None => Err(ExtensionError::LoadNotFound { name: key }),
        }
    }
}

} // verus!
