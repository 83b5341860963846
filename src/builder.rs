use crate::definition::{effective_name, Extension, Implementation};
use crate::global::{GlobalBinding, GlobalInitializer};
use crate::loader::ModuleLoader;
use crate::resolver::{name_set, ModuleResolver};
use crate::table::Table;
use vstd::prelude::*;

verus! {

/// The module table after `ext` is registered under `name` (or under its
/// own name): a module extension puts its module under that name, in place
/// of any earlier one; one that only installs globals changes nothing.
pub open spec fn registered_modules<D, O, G>(
    m: Map<Seq<char>, D>,
    ext: Extension<D, O, G>,
    name: Option<&str>,
) -> Map<Seq<char>, D> {
    match ext.implementation {
        Implementation::Module(mi) => m.insert(effective_name(ext, name), mi.module),
        Implementation::GlobalsOnly(_) => m,
    }
}

/// A module extension registered under a name is loaded under that name, and
/// the loader holds it no longer once it has been loaded.
pub proof fn lemma_module_loads_once<D, O, G>(
    m: Map<Seq<char>, D>,
    ext: Extension<D, O, G>,
    name: Option<&str>,
)
    requires
        ext.is_module(),
    ensures
        registered_modules(m, ext, name).contains_key(effective_name(ext, name)),
        registered_modules(m, ext, name)[effective_name(ext, name)] == ext.implementation->Module_0.module,
        !registered_modules(m, ext, name).remove(effective_name(ext, name)).contains_key(
            effective_name(ext, name),
        ),
{
}

/// Registering a module under one name leaves the module under any other
/// name as it was.
pub proof fn lemma_other_names_kept<D, O, G>(
    m: Map<Seq<char>, D>,
    ext: Extension<D, O, G>,
    name: Option<&str>,
    other: Seq<char>,
)
    requires
        other != effective_name(ext, name),
    ensures
        registered_modules(m, ext, name).contains_key(other) == m.contains_key(other),
        m.contains_key(other) ==> registered_modules(m, ext, name)[other] == m[other],
{
}

/// An extension that only installs globals reaches neither the module table
/// nor the set of names that the resolver accepts.
pub proof fn lemma_globals_only_not_resolvable<D, O, G>(
    m: Map<Seq<char>, D>,
    ext: Extension<D, O, G>,
    name: Option<&str>,
)
    requires
        !ext.is_module(),
        !m.contains_key(effective_name(ext, name)),
    ensures
        registered_modules(m, ext, name) == m,
        !registered_modules(m, ext, name).dom().contains(effective_name(ext, name)),
{
}

/// Collects extensions and turns them into a [`ModuleLoader`], a
/// [`ModuleResolver`] and a [`GlobalInitializer`].
pub struct ExtensionBuilder<D, O, G> {
    modules: Table<D>,
    globals: Vec<GlobalBinding<O, G>>,
}

impl<D, O, G> ExtensionBuilder<D, O, G> {
    pub closed spec fn wf(&self) -> bool {
        self.modules.wf()
    }

    /// The module table: each registered module under the name it was
    /// registered with.
    pub closed spec fn modules(&self) -> Map<Seq<char>, D> {
        self.modules@
    }

    /// The global bindings, one per registered extension, in order.
    pub closed spec fn bindings(&self) -> Seq<GlobalBinding<O, G>> {
        self.globals@
    }

    /// The names that the resolver will accept.
    pub open spec fn names(&self) -> Set<Seq<char>> {
        self.modules().dom()
    }

    /// How registering `ext` under `name` changes the registry.
    pub open spec fn registers(
        &self,
        after: &ExtensionBuilder<D, O, G>,
        ext: Extension<D, O, G>,
        name: Option<&str>,
    ) -> bool {
        &&& after.wf()
        &&& after.modules() == registered_modules(self.modules(), ext, name)
        &&& after.bindings().len() == self.bindings().len() + 1
        &&& after.bindings().drop_last() == self.bindings()
        &&& after.bindings().last().name@ == effective_name(ext, name)
        &&& after.bindings().last().options == ext.options
        &&& after.bindings().last().globals == ext.globals
    }

    /// An empty registry.
    pub fn new() -> (r: ExtensionBuilder<D, O, G>)
        ensures
            r.wf(),
            r.modules() == Map::<Seq<char>, D>::empty(),
            r.bindings() == Seq::<GlobalBinding<O, G>>::empty(),
    {
        ExtensionBuilder { modules: Table::new(), globals: Vec::new() }
    }

    /// Registers `ext` under its own name.
    pub fn with_extension(self, ext: Extension<D, O, G>) -> (r: ExtensionBuilder<D, O, G>)
        requires
            self.wf(),
        ensures
            self.registers(&r, ext, None),
    {
        let mut b = self;
        b.process_extension(ext, None);
        b
    }

    /// Registers `ext` under `name` in place of its own name.
    pub fn with_extension_named(self, ext: Extension<D, O, G>, name: &str) -> (r: ExtensionBuilder<
        D,
        O,
        G,
    >)
        requires
            self.wf(),
        ensures
            self.registers(&r, ext, Some(name)),
    {
        let mut b = self;
        b.process_extension(ext, Some(name));
        b
    }

    /// Registers `ext` under its own name.
    pub fn add_extension(&mut self, ext: Extension<D, O, G>)
        requires
            old(self).wf(),
        ensures
            old(self).registers(final(self), ext, None),
    {
        self.process_extension(ext, None);
    }

    /// Registers `ext` under `name` in place of its own name.
    pub fn add_extension_named(&mut self, ext: Extension<D, O, G>, name: &str)
        requires
            old(self).wf(),
        ensures
            old(self).registers(final(self), ext, Some(name)),
    {
        self.process_extension(ext, Some(name));
    }

    fn process_extension(&mut self, ext: Extension<D, O, G>, name: Option<&str>)
        requires
            old(self).wf(),
        ensures
            old(self).registers(final(self), ext, name),
    {
        let key: String = match name {
            Some(n) => n.to_owned(),
            None => match &ext.implementation {
                Implementation::Module(m) => m.name.clone(),
                Implementation::GlobalsOnly(_) => String::new(),
            },
        };
        let Extension { implementation, options, globals } = ext;
        match implementation {
            Implementation::Module(m) => {
                self.modules.insert(key.clone(), m.module);
            },
            Implementation::GlobalsOnly(_) => {},
        }
        self.globals.push(GlobalBinding { name: key, options, globals });
        assert(self.bindings().drop_last() =~= old(self).bindings());
    }

    /// Turns the registry into its three artifacts: the loader holds the
    /// module table, the resolver accepts its names, and the initializer
    /// holds the global bindings in registration order.
    pub fn build(self) -> (r: (ModuleLoader<D>, ModuleResolver, GlobalInitializer<O, G>))
        requires
            self.wf(),
        ensures
            r.0.wf(),
            r.0@ == self.modules(),
            r.1@ == self.names(),
            r.2.bindings() == self.bindings(),
    {
        let names = self.modules.key_list();
        proof {
            self.modules.lemma_keys();
            assert(name_set(names@) =~= self.names());
        }
        (ModuleLoader::new(self.modules), ModuleResolver::new(names), GlobalInitializer::new(self.globals))
    }
}

} // verus!
