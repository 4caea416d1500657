//! A resolver that knows no name.
use vstd::prelude::*;

use super::{Locked, LockedResolver, Ptr, Resolver, ResolverState, Slot, Unlocked, UnlockedResolver};

verus! {

/// Resolves no name; for expressions without variables or functions.
pub struct EmptyResolver<S: ResolverState> {
    state: S,
}

/// The unlocked empty resolver.
pub closed spec fn unlocked_empty() -> EmptyResolver<Unlocked> {
    EmptyResolver { state: Unlocked }
}

impl EmptyResolver<Unlocked> {
    pub fn new() -> (r: Self)
        ensures
            r == unlocked_empty(),
    {
        EmptyResolver { state: Unlocked }
    }
}

impl<S: ResolverState, T> Resolver<S, T> for EmptyResolver<S> {
    open spec fn lookup(&self, name: Seq<char>) -> Option<T> {
        None
    }

    open spec fn at(&self, slot: Slot) -> Option<T> {
        None
    }

    fn resolve(&self, name: &str) -> (r: Option<&T>) {
        None
    }

    fn locate(&self, name: &str) -> (r: Slot) {
        Slot::Name(name.to_owned())
    }

    fn fetch(&self, slot: &Slot) -> (r: Option<&T>) {
        None
    }
}

impl<T> LockedResolver<T> for EmptyResolver<Locked> {
    open spec fn aliases(&self, a: Slot, b: Slot) -> bool {
        false
    }

    open spec fn designates(&self, slot: Slot, name: Seq<char>) -> bool {
        false
    }

    fn get_ptr(&self, name: &str) -> (r: Option<Ptr<T>>) {
        None
    }

    fn write(&mut self, slot: &Slot, value: T) {
    }
}

impl<T> UnlockedResolver<T, EmptyResolver<Locked>> for EmptyResolver<Unlocked> {
    fn lock(self) -> (r: EmptyResolver<Locked>) {
        EmptyResolver { state: Locked }
    }
}

} // verus!
