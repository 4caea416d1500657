//! The general-purpose resolver: any name, any number of entries.
use vstd::prelude::*;

use super::table::{self, find};
use crate::arith::Arithmetic;
use super::{Locked, LockedResolver, Ptr, Resolver, ResolverState, Slot, Unlocked, UnlockedResolver};

verus! {

/// The circle constant, to the last digit a 64-bit float keeps.
pub const PI: &'static str = "3.141592653589793";

/// Euler's number.
pub const E: &'static str = "2.718281828459045";

/// Twice the circle constant.
pub const TAU: &'static str = "6.283185307179586";

/// The square root of two.
pub const SQRT_2: &'static str = "1.4142135623730951";

/// The general-purpose resolver: it takes any name and any number of
/// entries, at the cost of a search on every lookup by name.
///
/// Its entries are a list searched in order rather than a hash map: Verus
/// specifies no hash map keyed by strings, and a list whose names are kept
/// unique by `insert` gives the same lookups, in linear rather than constant
/// time.
///
/// Locking it makes every compiled reference a direct handle on its entry.
pub struct DefaultResolver<S: ResolverState, T> {
    vars: Vec<(String, T)>,
    state: S,
}

impl<S: ResolverState, T> DefaultResolver<S, T> {
    /// The entries, in the order they were added.
    pub closed spec fn entries(&self) -> Seq<(String, T)> {
        self.vars@
    }
}

impl<T> DefaultResolver<Unlocked, T> {
    pub fn empty() -> (r: Self)
        ensures
            r.entries().len() == 0,
            forall|n: Seq<char>| #[trigger] r.lookup(n) is None,
    {
        DefaultResolver { vars: Vec::new(), state: Unlocked }
    }

    /// Binds a name to a value, replacing the value it had; a new name adds
    /// one entry.
    pub fn insert(&mut self, name: &str, value: T)
        ensures
            final(self).entries().len() == old(self).entries().len() + if old(self).lookup(name@) is None {
                1int
            } else {
                0int
            },
            forall|n: Seq<char>|
                #[trigger] final(self).lookup(n) == if n == name@ {
                    Some(value)
                } else {
                    old(self).lookup(n)
                },
    {
        table::insert_in(&mut self.vars, name, value);
    }

    /// A resolver that knows the constants `pi`, `e`, `tau` and `sqrt2`.
    pub fn new_vars<D: Arithmetic<Num = T>>() -> (r: Self)
        ensures
            r.lookup("pi"@) is Some,
            r.lookup("e"@) is Some,
            r.lookup("tau"@) is Some,
            r.lookup("sqrt2"@) is Some,
            D::specified() ==> r.lookup("pi"@) == Some(D::spec_literal(PI@)),
            D::specified() ==> r.lookup("e"@) == Some(D::spec_literal(E@)),
            D::specified() ==> r.lookup("tau"@) == Some(D::spec_literal(TAU@)),
            D::specified() ==> r.lookup("sqrt2"@) == Some(D::spec_literal(SQRT_2@)),
            forall|n: Seq<char>|
                n != "pi"@ && n != "e"@ && n != "tau"@ && n != "sqrt2"@ ==> #[trigger] r.lookup(n)
                    is None,
    {
        proof {
            reveal_strlit("pi");
            reveal_strlit("e");
            reveal_strlit("tau");
            reveal_strlit("sqrt2");
            assert("pi"@.len() == 2);
            assert("e"@.len() == 1);
            assert("tau"@.len() == 3);
            assert("sqrt2"@.len() == 5);
        }
        let mut r = DefaultResolver::empty();
        let pi = D::literal(PI);
        r.insert("pi", pi);
        let e = D::literal(E);
        r.insert("e", e);
        assert(r.lookup("pi"@) == Some(pi));
        let tau = D::literal(TAU);
        r.insert("tau", tau);
        assert(r.lookup("pi"@) == Some(pi));
        assert(r.lookup("e"@) == Some(e));
        r.insert("sqrt2", D::literal(SQRT_2));
        assert(r.lookup("pi"@) == Some(pi));
        assert(r.lookup("e"@) == Some(e));
        r
    }
}

impl<T> Resolver<Unlocked, T> for DefaultResolver<Unlocked, T> {
    open spec fn lookup(&self, name: Seq<char>) -> Option<T> {
        find(self.entries(), name)
    }

    open spec fn at(&self, slot: Slot) -> Option<T> {
        table::at(self.entries(), slot)
    }

    fn resolve(&self, name: &str) -> (r: Option<&T>) {
        table::resolve_in(&self.vars, name)
    }

    fn locate(&self, name: &str) -> (r: Slot) {
        Slot::Name(name.to_owned())
    }

    fn fetch(&self, slot: &Slot) -> (r: Option<&T>) {
        table::fetch_in(&self.vars, slot)
    }
}

impl<T> Resolver<Locked, T> for DefaultResolver<Locked, T> {
    open spec fn lookup(&self, name: Seq<char>) -> Option<T> {
        find(self.entries(), name)
    }

    open spec fn at(&self, slot: Slot) -> Option<T> {
        table::at(self.entries(), slot)
    }

    fn resolve(&self, name: &str) -> (r: Option<&T>) {
        table::resolve_in(&self.vars, name)
    }

    fn locate(&self, name: &str) -> (r: Slot) {
        match table::handle_in(&self.vars, name) {
            Some(s) => s,
            None => Slot::Name(name.to_owned()),
        }
    }

    fn fetch(&self, slot: &Slot) -> (r: Option<&T>) {
        table::fetch_in(&self.vars, slot)
    }
}

impl<T> LockedResolver<T> for DefaultResolver<Locked, T> {
    open spec fn aliases(&self, a: Slot, b: Slot) -> bool {
        table::aliases(self.entries(), a, b)
    }

    open spec fn designates(&self, slot: Slot, name: Seq<char>) -> bool {
        table::designates(self.entries(), slot, name)
    }

    fn get_ptr(&self, name: &str) -> (r: Option<Ptr<T>>) {
        match table::handle_in(&self.vars, name) {
            Some(s) => Some(Ptr { slot: s, marker: core::marker::PhantomData }),
            None => None,
        }
    }

    fn write(&mut self, slot: &Slot, value: T) {
        table::write_in(&mut self.vars, slot, value);
    }
}

impl<T> UnlockedResolver<T, DefaultResolver<Locked, T>> for DefaultResolver<Unlocked, T> {
    fn lock(self) -> (r: DefaultResolver<Locked, T>) {
        DefaultResolver { vars: self.vars, state: Locked }
    }
}

} // verus!
