//! A resolver over a short list of names, scanned in order.
use vstd::prelude::*;

use super::table::{self, find};
use super::{Locked, LockedResolver, Ptr, Resolver, ResolverState, Slot, Unlocked, UnlockedResolver};

verus! {

/// Room set aside for entries when a small resolver is made.
pub const CACHE_SIZE: usize = 10;

/// A resolver over a short list of named entries, scanned in order.
///
/// It takes any name, and is fastest for about ten entries or fewer.
pub struct SmallResolver<S: ResolverState, T> {
    cache: Vec<(String, T)>,
    state: S,
}

impl<S: ResolverState, T> SmallResolver<S, T> {
    /// The entries, in the order they were added.
    pub closed spec fn entries(&self) -> Seq<(String, T)> {
        self.cache@
    }
}

impl<T> SmallResolver<Unlocked, T> {
    pub fn new() -> (r: Self)
        ensures
            r.entries().len() == 0,
            forall|n: Seq<char>| #[trigger] r.lookup(n) is None,
    {
        SmallResolver { cache: Vec::with_capacity(CACHE_SIZE), state: Unlocked }
    }

    /// Binds a name to a value, replacing the value it had; a new name adds
    /// one entry.
    pub fn insert(&mut self, name: &str, value: T)
        ensures
            final(self).entries().len() == old(self).entries().len() + if old(self).lookup(name@) is None {
                1int
            } else {
                0int
            },
            forall|n: Seq<char>|
                #[trigger] final(self).lookup(n) == if n == name@ {
                    Some(value)
                } else {
                    old(self).lookup(n)
                },
    {
        table::insert_in(&mut self.cache, name, value);
    }
}

impl<T> Resolver<Unlocked, T> for SmallResolver<Unlocked, T> {
    open spec fn lookup(&self, name: Seq<char>) -> Option<T> {
        find(self.entries(), name)
    }

    open spec fn at(&self, slot: Slot) -> Option<T> {
        table::at(self.entries(), slot)
    }

    fn resolve(&self, name: &str) -> (r: Option<&T>) {
        table::resolve_in(&self.cache, name)
    }

    fn locate(&self, name: &str) -> (r: Slot) {
        Slot::Name(name.to_owned())
    }

    fn fetch(&self, slot: &Slot) -> (r: Option<&T>) {
        table::fetch_in(&self.cache, slot)
    }
}

impl<T> Resolver<Locked, T> for SmallResolver<Locked, T> {
    open spec fn lookup(&self, name: Seq<char>) -> Option<T> {
        find(self.entries(), name)
    }

    open spec fn at(&self, slot: Slot) -> Option<T> {
        table::at(self.entries(), slot)
    }

    fn resolve(&self, name: &str) -> (r: Option<&T>) {
        table::resolve_in(&self.cache, name)
    }

    fn locate(&self, name: &str) -> (r: Slot) {
        match table::handle_in(&self.cache, name) {
            Some(s) => s,
            None => Slot::Name(name.to_owned()),
        }
    }

    fn fetch(&self, slot: &Slot) -> (r: Option<&T>) {
        table::fetch_in(&self.cache, slot)
    }
}

impl<T> LockedResolver<T> for SmallResolver<Locked, T> {
    open spec fn aliases(&self, a: Slot, b: Slot) -> bool {
        table::aliases(self.entries(), a, b)
    }

    open spec fn designates(&self, slot: Slot, name: Seq<char>) -> bool {
        table::designates(self.entries(), slot, name)
    }

    fn get_ptr(&self, name: &str) -> (r: Option<Ptr<T>>) {
        match table::handle_in(&self.cache, name) {
            Some(s) => Some(Ptr { slot: s, marker: core::marker::PhantomData }),
            None => None,
        }
    }

    fn write(&mut self, slot: &Slot, value: T) {
        table::write_in(&mut self.cache, slot, value);
    }
}

impl<T> UnlockedResolver<T, SmallResolver<Locked, T>> for SmallResolver<Unlocked, T> {
    fn lock(self) -> (r: SmallResolver<Locked, T>) {
        SmallResolver { cache: self.cache, state: Locked }
    }
}

} // verus!
