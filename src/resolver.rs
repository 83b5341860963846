use rquickjs::loader::BuiltinResolver;
use rquickjs::loader::Resolver;
use rquickjs::Ctx;
use crate::error::ExtensionError;
use vstd::prelude::*;

verus! {

#[verifier::external_type_specification]
#[verifier::external_body]
pub struct ExBuiltinResolver(BuiltinResolver);

#[verifier::external_type_specification]
#[verifier::external_body]
pub struct ExCtx<'js>(Ctx<'js>);

#[verifier::external_type_specification]
#[verifier::external_body]
pub struct ExError(rquickjs::Error);

/// The specifiers that a builtin resolver has been given.
pub uninterp spec fn builtin_modules(r: BuiltinResolver) -> Set<Seq<char>>;

/// Relies on `BuiltinResolver::default`: the set of modules starts empty.
#[verifier::external_body]
fn builtin_new() -> (r: BuiltinResolver)
    ensures
        builtin_modules(r) == Set::<Seq<char>>::empty(),
{
    BuiltinResolver::default()
}

/// Relies on `BuiltinResolver::add_module`: inserts the path into its set.
#[verifier::external_body]
fn builtin_add(r: &mut BuiltinResolver, path: String)
    ensures
        builtin_modules(*final(r)) == builtin_modules(*old(r)).insert(path@),
{
    r.add_module(path);
}

/// The strings of `s`, as a set of character sequences.
pub open spec fn name_set(s: Seq<String>) -> Set<Seq<char>> {
    Set::new(|n: Seq<char>| exists|i: int| 0 <= i < s.len() && s[i]@ == n)
}

/// Where a relative specifier (one that starts with `.`) leads from `base`.
pub uninterp spec fn relative_specifier(base: Seq<char>, name: Seq<char>) -> Seq<char>;

/// The specifier that `name`, imported from `base`, is looked up as.
pub open spec fn full_specifier(base: Seq<char>, name: Seq<char>) -> Seq<char> {
    if name.len() > 0 && name[0] == '.' {
        relative_specifier(base, name)
    } else {
        name
    }
}

/// Relies on `BuiltinResolver::resolve`: a name that does not start with `.`
/// is looked up as it is, a relative one as joined to the directory of
/// `base`; the result is that specifier if the set holds it, and an error
/// otherwise. The resolver is left as it was.
#[verifier::external_body]
fn builtin_resolve(r: &mut BuiltinResolver, ctx: &Ctx<'_>, base: &str, name: &str) -> (res: Result<String, rquickjs::Error>)
    ensures
        *final(r) == *old(r),
        res is Ok <==> builtin_modules(*old(r)).contains(full_specifier(base@, name@)),
        res matches Ok(s) ==> s@ == (if name@.len() > 0 && name@[0] == '.' {
            relative_specifier(base@, name@)
        } else {
            name@
        }),
{
    r.resolve(ctx, base, name)
}

/// Accepts the specifiers of the registered modules.
pub struct ModuleResolver {
    inner: BuiltinResolver,
}

impl View for ModuleResolver {
    type V = Set<Seq<char>>;

    closed spec fn view(&self) -> Set<Seq<char>> {
        builtin_modules(self.inner)
    }
}

impl ModuleResolver {
    pub(crate) fn new(names: Vec<String>) -> (r: ModuleResolver)
        ensures
            r@ == name_set(names@),
    {
        let mut inner = builtin_new();
        let ghost all = names@;
        let mut i: usize = 0;
        while i < names.len()
            invariant
                0 <= i <= names@.len(),
                names@ == all,
                builtin_modules(inner) == name_set(all.take(i as int)),
            decreases names@.len() - i,
        {
            let n = names[i].clone();
            builtin_add(&mut inner, n);
            proof {
                assert(all.take(i + 1) =~= all.take(i as int).push(all[i as int]));
                assert(name_set(all.take(i + 1)) =~= name_set(all.take(i as int)).insert(all[i as int]@)) by {
                    let prev = all.take(i as int);
                    let next = all.take(i + 1);
                    assert forall|n: Seq<char>| name_set(next).contains(n) implies name_set(prev).insert(all[i as int]@).contains(n) by {
                        let j = choose|j: int| 0 <= j < next.len() && next[j]@ == n;
                        if j < i {
                            assert(prev[j]@ == n);
                        }
                    }
                    assert forall|n: Seq<char>| name_set(prev).insert(all[i as int]@).contains(n) implies name_set(next).contains(n) by {
                        if n == all[i as int]@ {
                            assert(next[i as int]@ == n);
                        } else {
                            let j = choose|j: int| 0 <= j < prev.len() && prev[j]@ == n;
                            assert(next[j]@ == n);
                        }
                    }
                }
            }
            i = i + 1;
        }
        proof {
            assert(all.take(all.len() as int) =~= all);
        }
        ModuleResolver { inner }
    }

    /// Resolves `name`, imported from the module `base`, to the registered
    /// module that it names.
    pub fn resolve(&mut self, ctx: &Ctx<'_>, base: &str, name: &str) -> (r: Result<String, ExtensionError>)
        ensures
            final(self)@ == old(self)@,
            r is Ok <==> old(self)@.contains(full_specifier(base@, name@)),
            r matches Ok(s) ==> s@ == full_specifier(base@, name@),
            r matches Err(e) ==> (e matches ExtensionError::ResolutionFailure { base: b, name: n } && b@
                == base@ && n@ == name@),
    {
        match builtin_resolve(&mut self.inner, ctx, base, name) {
            Ok(s) => Ok(s),
            Err(_) => Err(ExtensionError::ResolutionFailure { base: base.to_owned(), name: name.to_owned() }),
        }
    }
}

} // verus!
