//! A resolver that gives every name one value.
use vstd::prelude::*;

use super::{Locked, LockedResolver, Ptr, Resolver, ResolverState, Slot, Unlocked, UnlockedResolver};

verus! {

/// Resolves every name, whatever it is, to the same value; the fastest of
/// the resolvers.
pub struct ConstantResolver<S: ResolverState, T> {
    value: T,
    state: S,
}

impl<S: ResolverState, T> ConstantResolver<S, T> {
    /// The value every name resolves to.
    pub closed spec fn value(&self) -> T {
        self.value
    }

    pub fn set(&mut self, value: T)
        ensures
            final(self).value() == value,
    {
        self.value = value;
    }
}

impl<T> ConstantResolver<Unlocked, T> {
    pub fn new(value: T) -> (r: Self)
        ensures
            r.value() == value,
    {
        ConstantResolver { value, state: Unlocked }
    }
}

impl<S: ResolverState, T> Resolver<S, T> for ConstantResolver<S, T> {
    open spec fn lookup(&self, name: Seq<char>) -> Option<T> {
        Some(self.value())
    }

    open spec fn at(&self, slot: Slot) -> Option<T> {
        Some(self.value())
    }

    fn resolve(&self, name: &str) -> (r: Option<&T>) {
        Some(&self.value)
    }

    fn locate(&self, name: &str) -> (r: Slot) {
        Slot::Handle(0)
    }

    fn fetch(&self, slot: &Slot) -> (r: Option<&T>) {
        Some(&self.value)
    }
}

impl<T> LockedResolver<T> for ConstantResolver<Locked, T> {
    /// There is one entry, which every slot designates.
    open spec fn aliases(&self, a: Slot, b: Slot) -> bool {
        true
    }

    open spec fn designates(&self, slot: Slot, name: Seq<char>) -> bool {
        true
    }

    fn get_ptr(&self, name: &str) -> (r: Option<Ptr<T>>) {
        Some(Ptr { slot: Slot::Handle(0), marker: core::marker::PhantomData })
    }

    fn write(&mut self, slot: &Slot, value: T) {
        self.value = value;
    }
}

impl<T> UnlockedResolver<T, ConstantResolver<Locked, T>> for ConstantResolver<Unlocked, T> {
    fn lock(self) -> (r: ConstantResolver<Locked, T>) {
        ConstantResolver { value: self.value, state: Locked }
    }
}

} // verus!
