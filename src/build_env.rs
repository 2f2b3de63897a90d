use vstd::prelude::*;

verus! {

/// Hands out the identifiers of build settings, one after another from 0.
#[derive(Debug)]
pub struct EnvIds {
    next: u32,
}

impl EnvIds {
    /// The identifier that the next setting will receive.
    pub closed spec fn next_spec(&self) -> u32 {
        self.next
    }

    /// A fresh source whose first identifier is 0.
    pub fn new() -> (r: EnvIds)
        ensures
            r.next_spec() == 0,
    {
        EnvIds { next: 0 }
    }

    /// The identifier that the next setting will receive.
    pub fn next_id(&self) -> (r: u32)
        ensures
            r == self.next_spec(),
    {
        self.next
    }
}

/// A named build setting (such as the minimum fragment angle) and the value
/// it has in the current scope. A nested scope sees the value that `env`
/// gave it; the enclosing scope keeps its own.
#[derive(Debug)]
pub struct BuildEnv<T> {
    id: u32,
    value: T,
}

impl<T> BuildEnv<T> {
    /// The identifier of the setting, shared by all its scopes.
    pub closed spec fn id_spec(&self) -> u32 {
        self.id
    }

    /// The value of the setting in this scope.
    pub closed spec fn value_spec(&self) -> T {
        self.value
    }

    /// Declares a new setting whose value, until a scope overrides it, is
    /// what `default` returns. It takes the next identifier of `ids`.
    pub fn new<D: Fn() -> T>(ids: &mut EnvIds, default: D) -> (r: BuildEnv<T>)
        requires
            old(ids).next_spec() < u32::MAX,
            default.requires(()),
        ensures
            r.id_spec() == old(ids).next_spec(),
            final(ids).next_spec() == old(ids).next_spec() + 1,
            default.ensures((), r.value_spec()),
    {
        let id = ids.next;
        ids.next = ids.next + 1;
        let value = default();
        BuildEnv { id, value }
    }

    /// The identifier of the setting.
    pub fn id(&self) -> (r: u32)
        ensures
            r == self.id_spec(),
    {
        self.id
    }

    /// The value of the setting in this scope.
    pub fn get(&self) -> (r: &T)
        ensures
            *r == self.value_spec(),
    {
        &self.value
    }
}

/// Runs `build_action` in a nested scope where the setting `env` has the
/// value `value`. The action receives the setting as that scope sees it;
/// `env` itself, and so every enclosing scope, keeps its value.
pub fn env<T, F: FnOnce(&BuildEnv<T>)>(env: &BuildEnv<T>, value: T, build_action: F)
    requires
        forall|e: BuildEnv<T>|
            e.id_spec() == env.id_spec() && e.value_spec() == value ==> #[trigger] build_action.requires(
                (&e,),
            ),
    ensures
        exists|e: BuildEnv<T>|
            e.id_spec() == env.id_spec() && e.value_spec() == value && #[trigger] build_action.ensures(
                (&e,),
                (),
            ),
{
    let scoped = BuildEnv { id: env.id, value };
    build_action(&scoped);
}

} // verus!
