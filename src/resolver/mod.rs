//! Name resolvers: strategies that map a name to a value.
//!
//! Every resolver is in one of two states. An [`Unlocked`] resolver may grow;
//! locking it gives a [`Locked`] resolver over the same entries whose shape
//! never changes again, so that a [`Ptr`] taken from it keeps designating the
//! same entry.
use vstd::prelude::*;

pub mod constant;
pub mod default;
pub mod empty;
pub mod indexed;
pub mod small;
mod table;

verus! {

/// Where a compiled instruction finds its value: by name on every use, by a
/// bucket and an offset, or by an entry's place in a locked resolver.
#[derive(Debug, PartialEq, Clone)]
pub enum Slot {
    Name(String),
    Index(usize, usize),
    Handle(usize),
}

/// Marker of a resolver's state.
pub trait ResolverState {}

/// The state of a resolver whose entries can no longer move.
pub struct Locked;

/// The state of a resolver that may still grow.
pub struct Unlocked;

impl ResolverState for Locked {}

impl ResolverState for Unlocked {}

/// Whether an optional reference designates the given optional value.
pub open spec fn refers<T>(r: Option<&T>, v: Option<T>) -> bool {
    match r {
        Some(x) => v == Some(*x),
        None => v is None,
    }
}

/// Maps names to values.
pub trait Resolver<S: ResolverState, T> {
    /// The value a name stands for.
    spec fn lookup(&self, name: Seq<char>) -> Option<T>;

    /// The value a slot designates.
    spec fn at(&self, slot: Slot) -> Option<T>;

    fn resolve(&self, name: &str) -> (r: Option<&T>)
        ensures
            refers(r, self.lookup(name@)),
    ;

    /// The slot through which compiled code finds a name's value.
    fn locate(&self, name: &str) -> (r: Slot)
        ensures
            self.at(r) == self.lookup(name@),
    ;

    fn fetch(&self, slot: &Slot) -> (r: Option<&T>)
        ensures
            refers(r, self.at(*slot)),
    ;
}

/// A resolver whose entries stay where they are; values can be replaced in
/// place through a [`Ptr`].
pub trait LockedResolver<T>: Resolver<Locked, T> {
    /// Whether two slots designate the same entry.
    spec fn aliases(&self, a: Slot, b: Slot) -> bool;

    /// Whether a name's value is the entry a slot designates.
    spec fn designates(&self, slot: Slot, name: Seq<char>) -> bool;

    fn get_ptr(&self, name: &str) -> (r: Option<Ptr<T>>)
        ensures
            r is Some <==> self.lookup(name@) is Some,
            r matches Some(p) ==> self.at(p.slot) == self.lookup(name@),
            r matches Some(p) ==> self.designates(p.slot, name@),
    ;

    /// Replaces the value of the entry a slot designates.
    fn write(&mut self, slot: &Slot, value: T)
        requires
            old(self).at(*slot) is Some,
        ensures
            final(self).at(*slot) == Some(value),
            forall|s: Slot|
                !old(self).aliases(s, *slot) ==> #[trigger] final(self).at(s) == old(self).at(s),
            forall|s: Slot|
                old(self).aliases(s, *slot) ==> #[trigger] final(self).at(s) == Some(value),
            forall|a: Slot, b: Slot|
                #[trigger] final(self).aliases(a, b) == old(self).aliases(a, b),
            forall|n: Seq<char>|
                old(self).designates(*slot, n) ==> #[trigger] final(self).lookup(n) == Some(value),
            forall|n: Seq<char>|
                !old(self).designates(*slot, n) ==> #[trigger] final(self).lookup(n) == old(
                    self,
                ).lookup(n),
            forall|s: Slot, n: Seq<char>|
                #[trigger] final(self).designates(s, n) == old(self).designates(s, n),
    ;
}

/// A resolver that may still grow; locking it keeps every entry.
pub trait UnlockedResolver<T, R: LockedResolver<T>>: Resolver<Unlocked, T> {
    fn lock(self) -> (r: R)
        ensures
            forall|name: Seq<char>| #[trigger] r.lookup(name) == self.lookup(name),
            forall|slot: Slot| #[trigger] r.at(slot) == self.at(slot),
    ;
}

/// A handle on one entry of a locked resolver: reading and writing through
/// it needs no name lookup.
#[derive(Debug, PartialEq)]
pub struct Ptr<T> {
    pub slot: Slot,
    pub marker: core::marker::PhantomData<T>,
}

impl<T: Copy> Ptr<T> {
    /// The value of the entry.
    pub fn get<R: LockedResolver<T>>(&self, resolver: &R) -> (r: T)
        requires
            resolver.at(self.slot) is Some,
        ensures
            Some(r) == resolver.at(self.slot),
    {
        *resolver.fetch(&self.slot).unwrap()
    }

    /// Replaces the value of the entry.
    pub fn set<R: LockedResolver<T>>(&self, resolver: &mut R, value: T)
        requires
            old(resolver).at(self.slot) is Some,
        ensures
            final(resolver).at(self.slot) == Some(value),
            forall|s: Slot|
                !old(resolver).aliases(s, self.slot) ==> #[trigger] final(resolver).at(s)
                    == old(resolver).at(s),
            forall|s: Slot|
                old(resolver).aliases(s, self.slot) ==> #[trigger] final(resolver).at(s) == Some(
                    value,
                ),
            forall|n: Seq<char>|
                old(resolver).designates(self.slot, n) ==> #[trigger] final(resolver).lookup(n)
                    == Some(value),
            forall|n: Seq<char>|
                !old(resolver).designates(self.slot, n) ==> #[trigger] final(resolver).lookup(n)
                    == old(resolver).lookup(n),
    {
        resolver.write(&self.slot, value);
    }
}

} // verus!
