use crate::error::ExtensionError;
use crate::table::Table;
use vstd::prelude::*;

verus! {

/// The options of one context, keyed by the name of the extension that
/// they were registered with.
pub struct OptionsStore<O> {
    slots: Table<O>,
}

impl<O> View for OptionsStore<O> {
    type V = Map<Seq<char>, O>;

    closed spec fn view(&self) -> Map<Seq<char>, O> {
        self.slots@
    }
}

impl<O> OptionsStore<O> {
    pub closed spec fn wf(&self) -> bool {
        self.slots.wf()
    }

    /// An empty store, for a fresh context.
    pub fn new() -> (r: OptionsStore<O>)
        ensures
            r.wf(),
            r@ == Map::<Seq<char>, O>::empty(),
    {
        OptionsStore { slots: Table::new() }
    }

    /// Stores `options` under `name`, replacing what was there.
    pub fn store(&mut self, name: String, options: O)
        requires
            old(self).wf(),
        ensures
            final(self).wf(),
            final(self)@ == old(self)@.insert(name@, options),
    {
        self.slots.insert(name, options);
    }

    /// Evaluates the module `name` by handing its stored options to `eval`.
    ///
    /// Fails with `OptionsMissing` where nothing is stored under `name`:
    /// the initializer has not run on this context.
    pub fn evaluate<R, F: FnOnce(&O) -> R>(&self, name: &str, eval: F) -> (r: Result<R, ExtensionError>)
        requires
            self.wf(),
            self@.contains_key(name@) ==> eval.requires((&self@[name@],)),
        ensures
            self@.contains_key(name@) ==> (r matches Ok(v) && eval.ensures((&self@[name@],), v)),
            !self@.contains_key(name@) ==> (r matches Err(ExtensionError::OptionsMissing { name: n })
                && n@ == name@),
    {
        let key = name.to_owned();
        match self.slots.get(&key) {
            Some(options) => Ok(eval(options)),
            None => Err(ExtensionError::OptionsMissing { name: key }),
        }
    }
}

} // verus!
