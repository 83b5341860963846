use crate::options::OptionsStore;
use vstd::prelude::*;

verus! {

/// One extension's deferred global binding: the extension's global-binding
/// function, the options that it is applied with, and the name that the
/// options are stored under afterwards.
pub struct GlobalBinding<O, G> {
    pub name: String,
    pub options: O,
    pub globals: G,
}

/// The options store after the bindings `bs` were applied in order to a
/// context whose store was `m`.
pub open spec fn stored_options<O, G>(m: Map<Seq<char>, O>, bs: Seq<GlobalBinding<O, G>>) -> Map<
    Seq<char>,
    O,
>
    decreases bs.len(),
{
    if bs.len() == 0 {
        m
    } else {
        stored_options(m, bs.drop_last()).insert(bs.last().name@, bs.last().options)
    }
}

/// Applying bindings in order leaves, under each name, the options of the
/// last binding with that name: of two extensions that set the same key,
/// the one registered later is what is seen after initialization.
pub proof fn lemma_later_binding_wins<O, G>(m: Map<Seq<char>, O>, bs: Seq<GlobalBinding<O, G>>, i: int)
    requires
        0 <= i < bs.len(),
        forall|j: int| i < j < bs.len() ==> #[trigger] bs[j].name@ != bs[i].name@,
    ensures
        stored_options(m, bs).contains_key(bs[i].name@),
        stored_options(m, bs)[bs[i].name@] == bs[i].options,
    decreases bs.len(),
{
    if i < bs.len() - 1 {
        let rest = bs.drop_last();
        assert forall|j: int| i < j < rest.len() implies #[trigger] rest[j].name@ != rest[i].name@ by {
            assert(rest[j] == bs[j]);
        }
        lemma_later_binding_wins(m, rest, i);
        assert(bs[bs.len() - 1].name@ != bs[i].name@);
    }
}

/// Options round trip: an extension's options are stored, unchanged, by
/// initializing a fresh context; before that the store holds nothing for it.
pub proof fn lemma_options_round_trip<O, G>(bs: Seq<GlobalBinding<O, G>>, i: int)
    requires
        0 <= i < bs.len(),
        forall|j: int| i < j < bs.len() ==> #[trigger] bs[j].name@ != bs[i].name@,
    ensures
        !Map::<Seq<char>, O>::empty().contains_key(bs[i].name@),
        stored_options(Map::<Seq<char>, O>::empty(), bs).contains_key(bs[i].name@),
        stored_options(Map::<Seq<char>, O>::empty(), bs)[bs[i].name@] == bs[i].options,
{
    lemma_later_binding_wins(Map::<Seq<char>, O>::empty(), bs, i);
}

/// Installs the globals of every registered extension, in registration
/// order. It must run on a context before any script does.
pub struct GlobalInitializer<O, G> {
    globals: Vec<GlobalBinding<O, G>>,
}

impl<O, G> GlobalInitializer<O, G> {
    /// The bindings, in registration order.
    pub closed spec fn bindings(&self) -> Seq<GlobalBinding<O, G>> {
        self.globals@
    }

    pub(crate) fn new(globals: Vec<GlobalBinding<O, G>>) -> (r: GlobalInitializer<O, G>)
        ensures
            r.bindings() == globals@,
    {
        GlobalInitializer { globals }
    }

    /// Applies each binding in turn: `apply` runs the extension's
    /// global-binding function with its options, and then the options go
    /// into `store`. Stops at the first binding that fails, and returns its
    /// error; what was applied before it stays.
    pub fn init<E, F: Fn(&G, &O) -> Result<(), E>>(self, store: &mut OptionsStore<O>, apply: F) -> (r:
        Result<(), E>)
        requires
            old(store).wf(),
            forall|i: int|
                0 <= i < self.bindings().len() ==> apply.requires(
                    (&#[trigger] self.bindings()[i].globals, &self.bindings()[i].options),
                ),
        ensures
            final(store).wf(),
            r is Ok ==> final(store)@ == stored_options(old(store)@, self.bindings()),
            r is Ok ==> forall|i: int|
                0 <= i < self.bindings().len() ==> apply.ensures(
                    (&#[trigger] self.bindings()[i].globals, &self.bindings()[i].options),
                    Ok(()),
                ),
            r matches Err(e) ==> exists|k: int|
                0 <= k < self.bindings().len() && #[trigger] apply.ensures(
                    (&self.bindings()[k].globals, &self.bindings()[k].options),
                    Err(e),
                ) && (forall|i: int|
                    0 <= i < k ==> apply.ensures(
                        (&#[trigger] self.bindings()[i].globals, &self.bindings()[i].options),
                        Ok(()),
                    )) && final(store)@ == stored_options(old(store)@, self.bindings().take(k)),
    {
        let ghost all = self.globals@;
        assert forall|j: int| 0 <= j < all.len() implies apply.requires(
            (&#[trigger] all[j].globals, &all[j].options),
        ) by {
            assert(all[j] == self.bindings()[j]);
        }
        let mut globals = self.globals;
        let count: usize = globals.len();
        let mut i: usize = 0;
        while i < count
            invariant
                store.wf(),
                i <= count == all.len(),
                all == self.bindings(),
                globals@ == all.skip(i as int),
                store@ == stored_options(old(store)@, all.take(i as int)),
                forall|j: int| 0 <= j < all.len() ==> apply.requires(
                    (&#[trigger] all[j].globals, &all[j].options),
                ),
                forall|j: int|
                    0 <= j < i ==> apply.ensures(
                        (&#[trigger] all[j].globals, &all[j].options),
                        Ok(()),
                    ),
            decreases count - i,
        {
            assert(globals@[0] == all[i as int]);
            let b = globals.remove(0);
            match apply(&b.globals, &b.options) {
                Ok(u) => {
                    assert(u == ());
                },
                Err(e) => {
                    assert(apply.ensures((&all[i as int].globals, &all[i as int].options), Err(e)));
                    return Err(e);
                },
            }
            store.store(b.name, b.options);
            proof {
                assert(all.take(i + 1).drop_last() =~= all.take(i as int));
                assert(globals@ =~= all.skip(i + 1));
            }
            i = i + 1;
        }
        assert(all.take(i as int) =~= all);
        Ok(())
    }
}

} // verus!
