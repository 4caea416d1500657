//! The pair of resolvers that expressions are compiled and evaluated against.
use vstd::prelude::*;

use crate::resolver::empty::{unlocked_empty, EmptyResolver};
use crate::resolver::{LockedResolver, Ptr, Slot, Unlocked, UnlockedResolver};

verus! {

/// Holds a variable resolver and a function resolver.
///
/// Locking a context locks both, so that compiled expressions designate
/// their entries directly and values can be replaced through a [`Ptr`].
pub struct Context<V, F> {
    vars: V,
    fns: F,
}

impl<V, F> Context<V, F> {
    pub closed spec fn var_resolver(&self) -> V {
        self.vars
    }

    pub closed spec fn fn_resolver(&self) -> F {
        self.fns
    }

    pub fn new(vars: V, fns: F) -> (r: Self)
        ensures
            r.var_resolver() == vars,
            r.fn_resolver() == fns,
    {
        Context { vars, fns }
    }

    pub fn vars(&self) -> (r: &V)
        ensures
            *r == self.var_resolver(),
    {
        &self.vars
    }

    pub fn fns(&self) -> (r: &F)
        ensures
            *r == self.fn_resolver(),
    {
        &self.fns
    }

    pub fn vars_mut(&mut self) -> (r: &mut V)
        ensures
            *r == old(self).var_resolver(),
            final(self).var_resolver() == *final(r),
            final(self).fn_resolver() == old(self).fn_resolver(),
    {
        &mut self.vars
    }

    pub fn fns_mut(&mut self) -> (r: &mut F)
        ensures
            *r == old(self).fn_resolver(),
            final(self).fn_resolver() == *final(r),
            final(self).var_resolver() == old(self).var_resolver(),
    {
        &mut self.fns
    }

    /// Locks both resolvers; every name keeps its value.
    pub fn lock<T, G, LV, LF>(self) -> (r: Context<LV, LF>) where
        V: UnlockedResolver<T, LV>,
        F: UnlockedResolver<G, LF>,
        LV: LockedResolver<T>,
        LF: LockedResolver<G>,

        ensures
            forall|n: Seq<char>| #[trigger] r.var_resolver().lookup(n) == self.var_resolver().lookup(n),
            forall|n: Seq<char>| #[trigger] r.fn_resolver().lookup(n) == self.fn_resolver().lookup(n),
            forall|s: Slot| #[trigger] r.var_resolver().at(s) == self.var_resolver().at(s),
            forall|s: Slot| #[trigger] r.fn_resolver().at(s) == self.fn_resolver().at(s),
    {
        Context { vars: self.vars.lock(), fns: self.fns.lock() }
    }

    /// A handle on a variable's entry, for a context whose variables are
    /// locked.
    pub fn get_var_ptr<T>(&self, name: &str) -> (r: Option<Ptr<T>>) where V: LockedResolver<T>
        ensures
            r is Some <==> self.var_resolver().lookup(name@) is Some,
            r matches Some(p) ==> self.var_resolver().at(p.slot) == self.var_resolver().lookup(
                name@,
            ),
    {
        self.vars.get_ptr(name)
    }

    /// A handle on a function's entry, for a context whose functions are
    /// locked.
    pub fn get_fn_ptr<G>(&self, name: &str) -> (r: Option<Ptr<G>>) where F: LockedResolver<G>
        ensures
            r is Some <==> self.fn_resolver().lookup(name@) is Some,
            r matches Some(p) ==> self.fn_resolver().at(p.slot) == self.fn_resolver().lookup(
                name@,
            ),
    {
        self.fns.get_ptr(name)
    }
}

/// The context that knows no name.
pub closed spec fn empty_context() -> Context<EmptyResolver<Unlocked>, EmptyResolver<Unlocked>> {
    Context { vars: unlocked_empty(), fns: unlocked_empty() }
}

impl Context<EmptyResolver<Unlocked>, EmptyResolver<Unlocked>> {
    /// A context that knows no name.
    pub fn empty() -> (r: Self)
        ensures
            r == empty_context(),
    {
        Context::new(EmptyResolver::new(), EmptyResolver::new())
    }
}

} // verus!
